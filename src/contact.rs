//! One contact record, and the canonical form of a phone number.

use vstd::prelude::*;
use vstd::string::*;
use crate::text::{chars_of, push_char, push_chars};

verus! {

/// Whether `c` is an ASCII decimal digit.
pub open spec fn is_digit(c: char) -> bool {
    '0' <= c && c <= '9'
}

/// The decimal digits of `s`, in order; every other character is dropped.
pub open spec fn digits_of(s: Seq<char>) -> Seq<char> {
    s.filter(|c: char| is_digit(c))
}

/// `(AAA) BBB-CCCC`, built from the first ten characters of `d`.
pub open spec fn phone_format(d: Seq<char>) -> Seq<char> {
    seq!['('] + d.subrange(0, 3) + seq![')', ' '] + d.subrange(3, 6) + seq!['-'] + d.subrange(6, 10)
}

/// The canonical form of a raw phone number: formatted when exactly ten
/// digits remain once everything else is dropped, otherwise the raw text.
pub open spec fn normalized_phone(raw: Seq<char>) -> Seq<char> {
    if digits_of(raw).len() == 10 {
        phone_format(digits_of(raw))
    } else {
        raw
    }
}

proof fn lemma_digits_of_push(s: Seq<char>, c: char)
    ensures
        digits_of(s.push(c)) == if is_digit(c) {
            digits_of(s).push(c)
        } else {
            digits_of(s)
        },
{
    reveal(Seq::filter);
    assert(s.push(c).drop_last() =~= s);
}

proof fn lemma_digits_of_digits(d: Seq<char>)
    requires
        forall|i: int| 0 <= i < d.len() ==> is_digit(#[trigger] d[i]),
    ensures
        digits_of(d) == d,
    decreases d.len(),
{
    if d.len() == 0 {
        reveal(Seq::filter);
        assert(digits_of(d) =~= d);
    } else {
        let front = d.drop_last();
        lemma_digits_of_digits(front);
        lemma_digits_of_push(front, d.last());
        assert(front.push(d.last()) =~= d);
    }
}

/// A phone number made of exactly ten digits and nothing else is written
/// `(d0d1d2) d3d4d5-d6d7d8d9`.
pub proof fn lemma_ten_digit_phone(d: Seq<char>)
    requires
        d.len() == 10,
        forall|i: int| 0 <= i < d.len() ==> is_digit(#[trigger] d[i]),
    ensures
        normalized_phone(d) == seq!['(', d[0], d[1], d[2], ')', ' ', d[3], d[4], d[5], '-', d[6], d[7], d[8], d[9]],
{
    lemma_digits_of_digits(d);
    assert(phone_format(d) =~= seq!['(', d[0], d[1], d[2], ')', ' ', d[3], d[4], d[5], '-', d[6], d[7], d[8], d[9]]);
}

/// Reduces `raw` to its decimal digits; exactly ten of them are written
/// `(AAA) BBB-CCCC`, any other count leaves `raw` as it was.
pub fn normalize_phone(raw: &str) -> (r: String)
    ensures
        r@ == normalized_phone(raw@),
        digits_of(raw@).len() != 10 ==> r@ == raw@,
{
    let cs = chars_of(raw);
    let mut digits: Vec<char> = Vec::new();
    let mut i: usize = 0;
    while i < cs.len()
        invariant
            i <= cs@.len(),
            cs@ == raw@,
            digits@ == digits_of(cs@.subrange(0, i as int)),
        decreases cs.len() - i,
    {
        let c = cs[i];
        proof {
            lemma_digits_of_push(cs@.subrange(0, i as int), c);
            assert(cs@.subrange(0, i + 1) =~= cs@.subrange(0, i as int).push(c));
        }
        if '0' <= c && c <= '9' {
            digits.push(c);
        }
        i += 1;
    }
    assert(cs@.subrange(0, cs@.len() as int) =~= raw@);
    if digits.len() == 10 {
        let mut r = String::new();
        push_char(&mut r, '(');
        push_chars(&mut r, &digits, 0, 3);
        push_char(&mut r, ')');
        push_char(&mut r, ' ');
        push_chars(&mut r, &digits, 3, 6);
        push_char(&mut r, '-');
        push_chars(&mut r, &digits, 6, 10);
        assert(r@ =~= phone_format(digits@));
        r
    } else {
        String::from_str(raw)
    }
}

/// One person's entry: an identifier, the names, email, postal address and
/// phone number.
#[derive(Debug)]
pub struct Contact {
    pub id: u128,
    pub first_name: String,
    pub last_name: String,
    pub email: String,
    pub address: String,
    pub phone_number: String,
}

/// The contacts that a sequence of references points to.
pub open spec fn derefs(s: Seq<&Contact>) -> Seq<Contact> {
    s.map_values(|c: &Contact| *c)
}

/// Relies on `uuid::Uuid::new_v4`: a random version-4 identifier, read as
/// an integer. Nothing is known of its value.
#[verifier::external_body]
pub(crate) fn fresh_id() -> u128 {
    uuid::Uuid::new_v4().as_u128()
}

impl Contact {
    /// Whether `self` holds exactly the given fields, the phone number in
    /// its canonical form.
    pub open spec fn holds(
        &self,
        first_name: Seq<char>,
        last_name: Seq<char>,
        email: Seq<char>,
        address: Seq<char>,
        phone_number: Seq<char>,
    ) -> bool {
        &&& self.first_name@ == first_name
        &&& self.last_name@ == last_name
        &&& self.email@ == email
        &&& self.address@ == address
        &&& self.phone_number@ == normalized_phone(phone_number)
    }

    /// A contact with the identifier `id`, the given fields, and the phone
    /// number normalized.
    pub fn with_id(
        id: u128,
        first_name: String,
        last_name: String,
        email: String,
        address: String,
        phone_number: String,
    ) -> (r: Contact)
        ensures
            r.id == id,
            r.holds(first_name@, last_name@, email@, address@, phone_number@),
    {
        let phone = normalize_phone(phone_number.as_str());
        Contact { id, first_name, last_name, email, address, phone_number: phone }
    }

    /// A contact with a freshly drawn identifier, the given fields, and the
    /// phone number normalized.
    pub fn new(
        first_name: String,
        last_name: String,
        email: String,
        address: String,
        phone_number: String,
    ) -> (r: Contact)
        ensures
            r.holds(first_name@, last_name@, email@, address@, phone_number@),
    {
        Contact::with_id(fresh_id(), first_name, last_name, email, address, phone_number)
    }
}

} // verus!
