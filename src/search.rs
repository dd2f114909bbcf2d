//! Fuzzy query: a case-insensitive substring match over a contact's five
//! text fields.

use vstd::prelude::*;
use crate::book::PhoneBook;
use crate::contact::{Contact, derefs};
use crate::text::chars_of;

verus! {

/// What `str::to_lowercase` makes of the text `s`.
pub uninterp spec fn lower_of(s: Seq<char>) -> Seq<char>;

/// Relies on `str::to_lowercase`: the lower-case form of `s`, which depends
/// on its characters alone.
#[verifier::external_body]
fn lowercase(s: &str) -> (r: String)
    ensures
        r@ == lower_of(s@),
{
    s.to_lowercase()
}

/// `q` occurs in `t` as a run of consecutive characters.
pub open spec fn is_substring(q: Seq<char>, t: Seq<char>) -> bool {
    exists|i: int| 0 <= i && i + q.len() <= t.len() && #[trigger] t.subrange(i, i + q.len()) == q
}

/// Whether `q` occurs in `t` at position `i`.
fn occurs_at(t: &Vec<char>, q: &Vec<char>, i: usize) -> (r: bool)
    requires
        i + q@.len() <= t@.len(),
    ensures
        r == (t@.subrange(i as int, i + q@.len()) == q@),
{
    let n = t.len();
    let mut k: usize = 0;
    while k < q.len()
        invariant
            n == t@.len(),
            i + q@.len() <= t@.len(),
            k <= q@.len(),
            forall|m: int| 0 <= m < k ==> t@[i + m] == q@[m],
        decreases q@.len() - k,
    {
        if t[i + k] != q[k] {
            assert(t@.subrange(i as int, i + q@.len())[k as int] != q@[k as int]);
            return false;
        }
        k += 1;
    }
    assert(t@.subrange(i as int, i + q@.len()) =~= q@);
    true
}

/// Whether `q` occurs in `t`.
pub fn contains_text(t: &str, q: &str) -> (r: bool)
    ensures
        r == is_substring(q@, t@),
{
    let tc = chars_of(t);
    let qc = chars_of(q);
    let n = tc.len();
    if qc.len() > n {
        return false;
    }
    if qc.len() == 0 {
        assert(t@.subrange(0int, 0int + q@.len()) =~= q@);
        return true;
    }
    let last = n - qc.len();
    let mut i: usize = 0;
    while i <= last
        invariant
            tc@ == t@,
            qc@ == q@,
            n == tc@.len(),
            qc@.len() > 0,
            last == tc@.len() - qc@.len(),
            i <= last + 1,
            forall|j: int| 0 <= j < i ==> #[trigger] tc@.subrange(j, j + qc@.len()) != qc@,
        decreases last + 1 - i,
    {
        if occurs_at(&tc, &qc, i) {
            return true;
        }
        i += 1;
    }
    false
}

/// Whether `q` occurs in any of the five texts.
pub open spec fn occurs_in_any(
    q: Seq<char>,
    first_name: Seq<char>,
    last_name: Seq<char>,
    email: Seq<char>,
    address: Seq<char>,
    phone_number: Seq<char>,
) -> bool {
    ||| is_substring(q, first_name)
    ||| is_substring(q, last_name)
    ||| is_substring(q, email)
    ||| is_substring(q, address)
    ||| is_substring(q, phone_number)
}

/// Whether the query `q` occurs in any of the five fields, all of them
/// already in lower case.
pub fn any_field_contains(
    q: &str,
    first_name: &str,
    last_name: &str,
    email: &str,
    address: &str,
    phone_number: &str,
) -> (r: bool)
    ensures
        r == occurs_in_any(q@, first_name@, last_name@, email@, address@, phone_number@),
{
    contains_text(first_name, q) || contains_text(last_name, q) || contains_text(email, q)
        || contains_text(address, q) || contains_text(phone_number, q)
}

/// Whether the lower-case `query` occurs in the lower-case form of one of
/// the contact's fields.
pub open spec fn contact_matches(query: Seq<char>, c: Contact) -> bool {
    occurs_in_any(
        lower_of(query),
        lower_of(c.first_name@),
        lower_of(c.last_name@),
        lower_of(c.email@),
        lower_of(c.address@),
        lower_of(c.phone_number@),
    )
}

/// The predicate of a fuzzy query for `query`.
pub open spec fn matching(query: Seq<char>) -> spec_fn(Contact) -> bool {
    |c: Contact| contact_matches(query, c)
}

/// The contacts of `s` that `query` matches, in their order in `s`.
pub open spec fn search_result(s: Seq<Contact>, query: Seq<char>) -> Seq<Contact> {
    s.filter(matching(query))
}

proof fn lemma_filter_push(s: Seq<Contact>, c: Contact, p: spec_fn(Contact) -> bool)
    ensures
        s.push(c).filter(p) == if p(c) {
            s.filter(p).push(c)
        } else {
            s.filter(p)
        },
{
    reveal(Seq::filter);
    assert(s.push(c).drop_last() =~= s);
}

/// Two queries with the same lower-case form find the same contacts.
pub proof fn lemma_query_case_insensitive(s: Seq<Contact>, q1: Seq<char>, q2: Seq<char>)
    requires
        lower_of(q1) == lower_of(q2),
    ensures
        search_result(s, q1) == search_result(s, q2),
{
    assert(matching(q1) =~= matching(q2));
}

impl PhoneBook {
    /// The contacts in which the query occurs, ignoring case, in the first
    /// name, last name, email, address or phone number; in creation order.
    pub fn search_contact(&self, query: &str) -> (r: Vec<&Contact>)
        ensures
            derefs(r@) == search_result(self@, query@),
    {
        let q = lowercase(query);
        let contacts = self.contacts();
        let mut r: Vec<&Contact> = Vec::new();
        let mut i: usize = 0;
        reveal(Seq::filter);
        assert(derefs(r@) =~= contacts@.subrange(0, 0).filter(matching(query@)));
        while i < contacts.len()
            invariant
                contacts@ == self@,
                q@ == lower_of(query@),
                i <= contacts@.len(),
                derefs(r@) == contacts@.subrange(0, i as int).filter(matching(query@)),
            decreases contacts@.len() - i,
        {
            let c = &contacts[i];
            let found = any_field_contains(
                q.as_str(),
                lowercase(c.first_name.as_str()).as_str(),
                lowercase(c.last_name.as_str()).as_str(),
                lowercase(c.email.as_str()).as_str(),
                lowercase(c.address.as_str()).as_str(),
                lowercase(c.phone_number.as_str()).as_str(),
            );
            proof {
                lemma_filter_push(contacts@.subrange(0, i as int), *c, matching(query@));
                assert(contacts@.subrange(0, i + 1) =~= contacts@.subrange(0, i as int).push(*c));
            }
            let ghost old_r = r@;
            if found {
                r.push(c);
                assert(derefs(r@) =~= derefs(old_r).push(*c));
            }
            i += 1;
        }
        assert(contacts@.subrange(0, i as int) =~= self@);
        r
    }
}

} // verus!
