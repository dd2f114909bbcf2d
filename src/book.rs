//! The phone book: an ordered collection of contacts, kept in creation
//! order, with the operations that change it.

use vstd::prelude::*;
use vstd::string::*;
use crate::contact::{Contact, is_digit, normalized_phone};
use crate::command::confirms;
use crate::text::chars_of;

verus! {

/// Why an operation on the phone book did not take place.
#[derive(Clone, Copy, Debug, PartialEq, Eq, Structural)]
pub enum BookError {
    /// The first name was empty.
    MissingFirstName,
    /// The phone number was empty.
    MissingPhoneNumber,
    /// The index was not a number between 1 and the number of contacts.
    InvalidIndex,
    /// A deletion was not confirmed.
    NotConfirmed,
    /// The contact's identifier is already in use.
    DuplicateId,
    /// An imported record could not be read.
    MalformedRecord,
    /// The header of imported data could not be read.
    UnreadableHeader,
    /// A listing order other than `asc`, `desc` or none.
    InvalidOrder,
}

/// The line shown for an error.
pub open spec fn error_message(e: BookError) -> Seq<char> {
    match e {
        BookError::MissingFirstName => "First name is required."@,
        BookError::MissingPhoneNumber => "Phone number is required."@,
        BookError::InvalidIndex => "Invalid contact index!"@,
        BookError::NotConfirmed => "Contact deletion cancelled."@,
        BookError::DuplicateId => "A contact with this identifier already exists."@,
        BookError::MalformedRecord => "Error reading record."@,
        BookError::UnreadableHeader => "Error reading header row."@,
        BookError::InvalidOrder => "Invalid order parameter. Please use 'asc' or 'desc'."@,
    }
}

impl BookError {
    /// The line shown for this error.
    pub fn message(&self) -> (r: String)
        ensures
            r@ == error_message(*self),
    {
        match self {
            BookError::MissingFirstName => String::from_str("First name is required."),
            BookError::MissingPhoneNumber => String::from_str("Phone number is required."),
            BookError::InvalidIndex => String::from_str("Invalid contact index!"),
            BookError::NotConfirmed => String::from_str("Contact deletion cancelled."),
            BookError::DuplicateId => String::from_str("A contact with this identifier already exists."),
            BookError::MalformedRecord => String::from_str("Error reading record."),
            BookError::UnreadableHeader => String::from_str("Error reading header row."),
            BookError::InvalidOrder => String::from_str("Invalid order parameter. Please use 'asc' or 'desc'."),
        }
    }
}

/// The first name and phone number are both present.
pub open spec fn has_required_fields(c: Contact) -> bool {
    c.first_name@.len() > 0 && c.phone_number@.len() > 0
}

/// Every contact has its required fields, and no two share an identifier.
pub open spec fn contacts_wf(s: Seq<Contact>) -> bool {
    &&& forall|i: int| 0 <= i < s.len() ==> has_required_fields(#[trigger] s[i])
    &&& forall|i: int, j: int| 0 <= i < j < s.len() ==> #[trigger] s[i].id != #[trigger] s[j].id
}

/// Whether some contact of `s` has the identifier `id`.
pub open spec fn id_in_use(s: Seq<Contact>, id: u128) -> bool {
    exists|i: int| 0 <= i < s.len() && #[trigger] s[i].id == id
}

/// `after` is `before` with one contact appended that holds the given
/// fields, the phone number in its canonical form.
pub open spec fn appended(
    before: Seq<Contact>,
    after: Seq<Contact>,
    first_name: Seq<char>,
    last_name: Seq<char>,
    email: Seq<char>,
    address: Seq<char>,
    phone_number: Seq<char>,
) -> bool {
    &&& after.len() == before.len() + 1
    &&& after.drop_last() == before
    &&& after.last().holds(first_name, last_name, email, address, phone_number)
}

/// The value of a non-empty run of decimal digits.
pub open spec fn numeral_value(s: Seq<char>) -> nat
    decreases s.len(),
{
    if s.len() == 0 {
        0
    } else {
        numeral_value(s.drop_last()) * 10 + ((s.last() as int) - ('0' as int)) as nat
    }
}

/// Whether `s` is a non-empty run of decimal digits.
pub open spec fn is_numeral(s: Seq<char>) -> bool {
    s.len() > 0 && forall|i: int| 0 <= i < s.len() ==> is_digit(#[trigger] s[i])
}

/// The digits of an index: the text without one leading `+`, if it has one.
pub open spec fn index_digits(s: Seq<char>) -> Seq<char> {
    if s.len() > 0 && s[0] == '+' {
        s.drop_first()
    } else {
        s
    }
}

/// The number that `s` writes in decimal, if it writes one that fits a
/// `usize`.
pub open spec fn index_value(s: Seq<char>) -> Option<nat> {
    let d = index_digits(s);
    if is_numeral(d) && numeral_value(d) <= usize::MAX {
        Some(numeral_value(d))
    } else {
        None
    }
}

/// Reads a decimal number, as typed at an index prompt: an optional `+`
/// and at least one digit, with a value that fits a `usize`.
pub fn parse_index(text: &str) -> (r: Option<usize>)
    ensures
        r matches Some(v) ==> index_value(text@) == Some(v as nat),
        r is None ==> index_value(text@) is None,
{
    let cs = chars_of(text);
    let start: usize = if cs.len() > 0 && cs[0] == '+' { 1 } else { 0 };
    let ghost d = index_digits(text@);
    assert(d =~= cs@.subrange(start as int, cs@.len() as int));
    if start >= cs.len() {
        return None;
    }
    let mut value: usize = 0;
    let mut i: usize = start;
    while i < cs.len()
        invariant
            cs@ == text@,
            d == index_digits(text@),
            start <= i <= cs@.len(),
            d == cs@.subrange(start as int, cs@.len() as int),
            forall|k: int| 0 <= k < i - start ==> is_digit(#[trigger] d[k]),
            value as nat == numeral_value(d.subrange(0, i - start)),
        decreases cs.len() - i,
    {
        let c = cs[i];
        if !('0' <= c && c <= '9') {
            assert(!is_digit(d[i - start]));
            return None;
        }
        let ghost prefix = d.subrange(0, i + 1 - start);
        assert(prefix.drop_last() =~= d.subrange(0, i - start));
        assert(prefix.last() == c);
        let digit = (c as u32 - '0' as u32) as usize;
        match value.checked_mul(10) {
            Some(v10) => match v10.checked_add(digit) {
                Some(v) => {
                    value = v;
                },
                None => {
                    proof {
                        if is_numeral(d) {
                            lemma_numeral_prefix_bound(d, i + 1 - start);
                        }
                    }
                    return None;
                },
            },
            None => {
                proof {
                    if is_numeral(d) {
                        lemma_numeral_prefix_bound(d, i + 1 - start);
                    }
                }
                return None;
            },
        }
        i += 1;
    }
    assert(d.subrange(0, d.len() as int) =~= d);
    Some(value)
}

/// A numeral is at least as large as any of its prefixes.
proof fn lemma_numeral_prefix_bound(d: Seq<char>, k: int)
    requires
        0 <= k <= d.len(),
        forall|i: int| 0 <= i < d.len() ==> is_digit(#[trigger] d[i]),
    ensures
        numeral_value(d.subrange(0, k)) <= numeral_value(d),
    decreases d.len() - k,
{
    if k < d.len() {
        lemma_numeral_prefix_bound(d, k + 1);
        let p = d.subrange(0, k + 1);
        assert(p.drop_last() =~= d.subrange(0, k));
        assert(is_digit(d[k]));
    } else {
        assert(d.subrange(0, k) =~= d);
    }
}

/// The canonical form of a phone number is empty only when the raw text is.
proof fn lemma_normalized_phone_nonempty(raw: Seq<char>)
    ensures
        raw.len() > 0 ==> normalized_phone(raw).len() > 0,
{
}

/// A first name is required: refused when empty.
pub fn check_first_name(first_name: &str) -> (r: Result<(), BookError>)
    ensures
        first_name@.len() == 0 ==> r == Err::<(), BookError>(BookError::MissingFirstName),
        first_name@.len() > 0 ==> r == Ok::<(), BookError>(()),
{
    if first_name.is_empty() {
        Err(BookError::MissingFirstName)
    } else {
        Ok(())
    }
}

/// A phone number is required: refused when empty.
pub fn check_phone_number(phone_number: &str) -> (r: Result<(), BookError>)
    ensures
        phone_number@.len() == 0 ==> r == Err::<(), BookError>(BookError::MissingPhoneNumber),
        phone_number@.len() > 0 ==> r == Ok::<(), BookError>(()),
{
    if phone_number.is_empty() {
        Err(BookError::MissingPhoneNumber)
    } else {
        Ok(())
    }
}

/// An ordered collection of contacts, kept in the order they were added.
#[derive(Debug)]
pub struct PhoneBook {
    contacts: Vec<Contact>,
}

impl View for PhoneBook {
    type V = Seq<Contact>;

    closed spec fn view(&self) -> Seq<Contact> {
        self.contacts@
    }
}

impl Default for PhoneBook {
    /// An empty phone book.
    fn default() -> (r: PhoneBook)
        ensures
            r@ == Seq::<Contact>::empty(),
            r.wf(),
    {
        PhoneBook::new()
    }
}

impl PhoneBook {
    /// The phone book's invariant.
    pub open spec fn wf(&self) -> bool {
        contacts_wf(self@)
    }

    /// An empty phone book.
    pub fn new() -> (r: PhoneBook)
        ensures
            r@ == Seq::<Contact>::empty(),
            r.wf(),
    {
        PhoneBook { contacts: Vec::new() }
    }

    /// The contacts, in creation order.
    pub fn contacts(&self) -> (r: &Vec<Contact>)
        ensures
            r@ == self@,
    {
        &self.contacts
    }

    /// The number of contacts.
    pub fn len(&self) -> (r: usize)
        ensures
            r == self@.len(),
    {
        self.contacts.len()
    }

    /// Whether some contact has the identifier `id`.
    pub fn has_id(&self, id: u128) -> (r: bool)
        ensures
            r == id_in_use(self@, id),
    {
        let mut i: usize = 0;
        while i < self.contacts.len()
            invariant
                i <= self@.len(),
                forall|k: int| 0 <= k < i ==> #[trigger] self@[k].id != id,
            decreases self@.len() - i,
        {
            if self.contacts[i].id == id {
                return true;
            }
            i += 1;
        }
        false
    }

    /// Appends `contact` at the end. It is refused when a required field is
    /// empty, or when its identifier is already in use.
    pub fn add_contact(&mut self, contact: Contact) -> (r: Result<(), BookError>)
        requires
            old(self).wf(),
        ensures
            final(self).wf(),
            contact.first_name@.len() == 0 ==> r == Err::<(), BookError>(BookError::MissingFirstName),
            contact.first_name@.len() > 0 && contact.phone_number@.len() == 0
                ==> r == Err::<(), BookError>(BookError::MissingPhoneNumber),
            has_required_fields(contact) && id_in_use(old(self)@, contact.id)
                ==> r == Err::<(), BookError>(BookError::DuplicateId),
            has_required_fields(contact) && !id_in_use(old(self)@, contact.id) ==> r == Ok::<(), BookError>(()),
            r is Ok ==> final(self)@ == old(self)@.push(contact),
            r is Err ==> final(self)@ == old(self)@,
    {
        if contact.first_name.as_str().is_empty() {
            return Err(BookError::MissingFirstName);
        }
        if contact.phone_number.as_str().is_empty() {
            return Err(BookError::MissingPhoneNumber);
        }
        if self.has_id(contact.id) {
            return Err(BookError::DuplicateId);
        }
        self.contacts.push(contact);
        Ok(())
    }

    /// Creates a contact from the given fields, its phone number normalized
    /// and its identifier drawn afresh, and appends it. The first name and
    /// the phone number are required.
    pub fn create_contact(
        &mut self,
        first_name: String,
        last_name: String,
        email: String,
        address: String,
        phone_number: String,
    ) -> (r: Result<(), BookError>)
        requires
            old(self).wf(),
        ensures
            final(self).wf(),
            first_name@.len() == 0 ==> r == Err::<(), BookError>(BookError::MissingFirstName),
            first_name@.len() > 0 && phone_number@.len() == 0
                ==> r == Err::<(), BookError>(BookError::MissingPhoneNumber),
            first_name@.len() > 0 && phone_number@.len() > 0 ==> (r is Ok || r == Err::<(), BookError>(BookError::DuplicateId)),
            r == Err::<(), BookError>(BookError::DuplicateId) ==> old(self)@.len() > 0,
            r is Ok ==> appended(old(self)@, final(self)@, first_name@, last_name@, email@, address@, phone_number@),
            r is Err ==> final(self)@ == old(self)@,
    {
        check_first_name(first_name.as_str())?;
        check_phone_number(phone_number.as_str())?;
        proof { lemma_normalized_phone_nonempty(phone_number@); }
        let contact = Contact::new(first_name, last_name, email, address, phone_number);
        let r = self.add_contact(contact);
        proof {
            if r is Ok {
                assert(self@.drop_last() =~= old(self)@);
            }
        }
        r
    }

    /// The 1-based position that `text` names, if it is a number between 1
    /// and the number of contacts.
    pub fn select(&self, text: &str) -> (r: Result<usize, BookError>)
        ensures
            r matches Ok(i) ==> index_value(text@) == Some(i as nat) && 1 <= i <= self@.len(),
            r is Err ==> r == Err::<usize, BookError>(BookError::InvalidIndex)
                && !(index_value(text@) matches Some(v) && 1 <= v <= self@.len()),
    {
        match parse_index(text) {
            Some(i) => {
                if i >= 1 && i <= self.contacts.len() {
                    Ok(i)
                } else {
                    Err(BookError::InvalidIndex)
                }
            },
            None => Err(BookError::InvalidIndex),
        }
    }

    /// The contact at the 1-based position `index`.
    pub fn contact_at(&self, index: usize) -> (r: Result<&Contact, BookError>)
        ensures
            1 <= index <= self@.len() ==> r == Ok::<&Contact, BookError>(&self@[index - 1]),
            !(1 <= index <= self@.len()) ==> r == Err::<&Contact, BookError>(BookError::InvalidIndex),
    {
        if index >= 1 && index <= self.contacts.len() {
            Ok(&self.contacts[index - 1])
        } else {
            Err(BookError::InvalidIndex)
        }
    }

    /// Replaces every field of the contact at the 1-based position `index`
    /// (the phone number normalized); the identifier stays. The index must
    /// name a contact, and the first name and phone number are required.
    pub fn update_contact(
        &mut self,
        index: usize,
        first_name: String,
        last_name: String,
        email: String,
        address: String,
        phone_number: String,
    ) -> (r: Result<(), BookError>)
        requires
            old(self).wf(),
        ensures
            final(self).wf(),
            !(1 <= index <= old(self)@.len()) ==> r == Err::<(), BookError>(BookError::InvalidIndex),
            1 <= index <= old(self)@.len() && first_name@.len() == 0
                ==> r == Err::<(), BookError>(BookError::MissingFirstName),
            1 <= index <= old(self)@.len() && first_name@.len() > 0 && phone_number@.len() == 0
                ==> r == Err::<(), BookError>(BookError::MissingPhoneNumber),
            1 <= index <= old(self)@.len() && first_name@.len() > 0 && phone_number@.len() > 0 ==> r is Ok,
            r is Ok ==> final(self)@.len() == old(self)@.len()
                && (forall|j: int| 0 <= j < old(self)@.len() && j != index - 1 ==> #[trigger] final(self)@[j] == old(self)@[j])
                && final(self)@[index - 1].id == old(self)@[index - 1].id
                && final(self)@[index - 1].holds(first_name@, last_name@, email@, address@, phone_number@),
            r is Err ==> final(self)@ == old(self)@,
    {
        if index < 1 || index > self.contacts.len() {
            return Err(BookError::InvalidIndex);
        }
        check_first_name(first_name.as_str())?;
        check_phone_number(phone_number.as_str())?;
        proof { lemma_normalized_phone_nonempty(phone_number@); }
        let id = self.contacts[index - 1].id;
        let updated = Contact::with_id(id, first_name, last_name, email, address, phone_number);
        self.contacts.set(index - 1, updated);
        Ok(())
    }

    /// Removes the contact at the 1-based position `index`, when the
    /// confirmation reads exactly `y`; it is handed back.
    pub fn delete_contact(&mut self, index: usize, confirmation: &str) -> (r: Result<Contact, BookError>)
        requires
            old(self).wf(),
        ensures
            final(self).wf(),
            !(1 <= index <= old(self)@.len()) ==> r == Err::<Contact, BookError>(BookError::InvalidIndex),
            1 <= index <= old(self)@.len() && confirmation@ != seq!['y']
                ==> r == Err::<Contact, BookError>(BookError::NotConfirmed),
            1 <= index <= old(self)@.len() && confirmation@ == seq!['y']
                ==> r == Ok::<Contact, BookError>(old(self)@[index - 1])
                && final(self)@ == old(self)@.remove(index - 1),
            r is Err ==> final(self)@ == old(self)@,
    {
        if index < 1 || index > self.contacts.len() {
            return Err(BookError::InvalidIndex);
        }
        if !confirms(confirmation) {
            return Err(BookError::NotConfirmed);
        }
        let removed = self.contacts.remove(index - 1);
        Ok(removed)
    }
}

} // verus!
