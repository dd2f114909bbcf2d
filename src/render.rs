//! Text renderings of contacts and of the list of operations, as tables.

use vstd::prelude::*;
use vstd::string::*;
use crate::book::PhoneBook;
use crate::contact::Contact;
use crate::text::{decimal, push_char, push_decimal, texts};

verus! {

/// The table that comfy_table draws for `header` and `rows`, with full
/// UTF-8 borders and rounded corners.
pub uninterp spec fn table_text(header: Seq<Seq<char>>, rows: Seq<Seq<Seq<char>>>) -> Seq<char>;

/// The texts of a sequence of rows.
pub open spec fn rows_texts(rows: Seq<Vec<String>>) -> Seq<Seq<Seq<char>>> {
    rows.map_values(|r: Vec<String>| texts(r@))
}

/// Relies on comfy_table's `Table` (`new`, `load_preset` with `UTF8_FULL`,
/// `apply_modifier` with `UTF8_ROUND_CORNERS`, `set_header`, `add_rows`, and
/// its `Display`): the drawn table. With no cell styling and the default
/// content arrangement it depends on the header and rows alone.
#[verifier::external_body]
fn render_table(header: &Vec<String>, rows: &Vec<Vec<String>>) -> (r: String)
    ensures
        r@ == table_text(texts(header@), rows_texts(rows@)),
{
    let mut table = comfy_table::Table::new();
    table
        .load_preset(comfy_table::presets::UTF8_FULL)
        .apply_modifier(comfy_table::modifiers::UTF8_ROUND_CORNERS)
        .set_header(header.clone())
        .add_rows(rows.clone());
    table.to_string()
}

/// The column titles of a single contact's table.
pub open spec fn contact_header() -> Seq<Seq<char>> {
    seq!["First Name"@, "Last Name"@, "Email"@, "Address"@, "Phone Number"@]
}

/// The row of a single contact's table.
pub open spec fn contact_row(c: Contact) -> Seq<Seq<char>> {
    seq![c.first_name@, c.last_name@, c.email@, c.address@, c.phone_number@]
}

/// The column titles of a numbered list of contacts.
pub open spec fn listing_header() -> Seq<Seq<char>> {
    seq!["#"@, "First Name"@, "Last Name"@, "Phone Number"@, "Email"@, "Address"@]
}

/// The row of the contact `c` at 0-based position `i` of a numbered list.
pub open spec fn listing_row(i: int, c: Contact) -> Seq<Seq<char>> {
    seq![decimal((i + 1) as nat), c.first_name@, c.last_name@, c.phone_number@, c.email@, c.address@]
}

/// The rows of a numbered list of `s`.
pub open spec fn listing_rows(s: Seq<Contact>) -> Seq<Seq<Seq<char>>> {
    Seq::new(s.len(), |i: int| listing_row(i, s[i]))
}

/// What a numbered list of `s` shows: a table, or a message when `s` is
/// empty.
pub open spec fn listing_text(s: Seq<Contact>, empty_message: Seq<char>) -> Seq<char> {
    if s.len() == 0 {
        empty_message
    } else {
        table_text(listing_header(), listing_rows(s))
    }
}

/// The texts of a sequence of string slices.
pub open spec fn str_texts(v: Seq<&str>) -> Seq<Seq<char>> {
    v.map_values(|p: &str| p@)
}

/// The strings `parts`, as owned values.
fn owned(parts: &Vec<&str>) -> (r: Vec<String>)
    ensures
        texts(r@) == str_texts(parts@),
{
    let mut r: Vec<String> = Vec::new();
    let mut i: usize = 0;
    while i < parts.len()
        invariant
            i <= parts@.len(),
            texts(r@) == str_texts(parts@.subrange(0, i as int)),
        decreases parts@.len() - i,
    {
        let ghost old_r = r@;
        let part: &str = parts[i];
        r.push(String::from_str(part));
        assert(texts(r@) =~= texts(old_r).push(part@));
        assert(parts@.subrange(0, i + 1) =~= parts@.subrange(0, i as int).push(part));
        i += 1;
        assert(texts(r@) =~= str_texts(parts@.subrange(0, i as int)));
    }
    assert(parts@.subrange(0, i as int) =~= parts@);
    r
}

impl Contact {
    /// The one-row table that shows this contact: every field but the
    /// identifier.
    pub fn print_contact(&self) -> (r: String)
        ensures
            r@ == table_text(contact_header(), seq![contact_row(*self)]),
    {
        let header = owned(&vec!["First Name", "Last Name", "Email", "Address", "Phone Number"]);
        let fields = vec![
            self.first_name.as_str(),
            self.last_name.as_str(),
            self.email.as_str(),
            self.address.as_str(),
            self.phone_number.as_str(),
        ];
        let row = owned(&fields);
        assert(texts(row@) =~= contact_row(*self));
        let mut rows: Vec<Vec<String>> = Vec::new();
        rows.push(row);
        let r = render_table(&header, &rows);
        assert(texts(header@) =~= contact_header());
        assert(rows_texts(rows@) =~= seq![contact_row(*self)]);
        r
    }
}

/// A numbered table of `contacts`, counting from 1, or `empty_message`
/// when there are none.
pub fn contacts_table(contacts: &Vec<&Contact>, empty_message: &str) -> (r: String)
    ensures
        r@ == listing_text(crate::contact::derefs(contacts@), empty_message@),
{
    let ghost s = crate::contact::derefs(contacts@);
    if contacts.len() == 0 {
        return String::from_str(empty_message);
    }
    let header = owned(&vec!["#", "First Name", "Last Name", "Phone Number", "Email", "Address"]);
    let mut rows: Vec<Vec<String>> = Vec::new();
    let mut i: usize = 0;
    while i < contacts.len()
        invariant
            s == crate::contact::derefs(contacts@),
            i <= contacts@.len(),
            rows_texts(rows@) == listing_rows(s.subrange(0, i as int)),
        decreases contacts@.len() - i,
    {
        let c = contacts[i];
        let mut number = String::new();
        push_decimal(&mut number, i + 1);
        let fields = vec![
            number.as_str(),
            c.first_name.as_str(),
            c.last_name.as_str(),
            c.phone_number.as_str(),
            c.email.as_str(),
            c.address.as_str(),
        ];
        let row = owned(&fields);
        assert(number@ =~= decimal((i + 1) as nat));
        assert(texts(row@) =~= listing_row(i as int, s[i as int]));
        let ghost old_rows = rows@;
        rows.push(row);
        i += 1;
        assert(rows_texts(rows@) =~= listing_rows(s.subrange(0, i as int))) by {
            assert(rows_texts(rows@) =~= rows_texts(old_rows).push(texts(row@)));
        }
    }
    assert(s.subrange(0, i as int) =~= s);
    assert(texts(header@) =~= listing_header());
    render_table(&header, &rows)
}

/// One line of the operations table: `U | l` and the description.
pub open spec fn operation_row(upper: char, lower: char, description: Seq<char>) -> Seq<Seq<char>> {
    seq![seq![upper, ' ', '|', ' ', lower], description]
}

/// The rows of the operations table, one per command.
pub open spec fn operation_rows() -> Seq<Seq<Seq<char>>> {
    seq![
        operation_row('C', 'c', "Create"@),
        operation_row('Q', 'q', "Fuzzy Query"@),
        operation_row('F', 'f', "Upload contacts from a CSV file"@),
        operation_row('U', 'u', "Update"@),
        operation_row('D', 'd', "Delete"@),
        operation_row('E', 'e', "Exit"@),
        operation_row('L', 'l', "List in original order based on creation time"@),
        operation_row('A', 'a', "List in ascending order"@),
        operation_row('Z', 'z', "List in descending order"@),
        operation_row('?', '?', "Show available operations"@),
    ]
}

fn push_operation_row(rows: &mut Vec<Vec<String>>, upper: char, lower: char, description: &str)
    ensures
        rows_texts(final(rows)@) == rows_texts(old(rows)@).push(operation_row(upper, lower, description@)),
{
    let mut key = String::new();
    push_char(&mut key, upper);
    push_char(&mut key, ' ');
    push_char(&mut key, '|');
    push_char(&mut key, ' ');
    push_char(&mut key, lower);
    assert(key@ =~= seq![upper, ' ', '|', ' ', lower]);
    let mut row: Vec<String> = Vec::new();
    row.push(key);
    row.push(String::from_str(description));
    rows.push(row);
    assert(texts(row@) =~= operation_row(upper, lower, description@));
    assert(rows_texts(rows@) =~= rows_texts(old(rows)@).push(operation_row(upper, lower, description@)));
}

impl PhoneBook {
    /// The table of available operations: each command letter, in upper
    /// and lower case, with its description.
    pub fn show_operations(&self) -> (r: String)
        ensures
            r@ == table_text(seq!["Option"@, "Description"@], operation_rows()),
    {
        let header = owned(&vec!["Option", "Description"]);
        let mut rows: Vec<Vec<String>> = Vec::new();
        push_operation_row(&mut rows, 'C', 'c', "Create");
        push_operation_row(&mut rows, 'Q', 'q', "Fuzzy Query");
        push_operation_row(&mut rows, 'F', 'f', "Upload contacts from a CSV file");
        push_operation_row(&mut rows, 'U', 'u', "Update");
        push_operation_row(&mut rows, 'D', 'd', "Delete");
        push_operation_row(&mut rows, 'E', 'e', "Exit");
        push_operation_row(&mut rows, 'L', 'l', "List in original order based on creation time");
        push_operation_row(&mut rows, 'A', 'a', "List in ascending order");
        push_operation_row(&mut rows, 'Z', 'z', "List in descending order");
        push_operation_row(&mut rows, '?', '?', "Show available operations");
        assert(texts(header@) =~= seq!["Option"@, "Description"@]);
        assert(rows_texts(rows@) =~= operation_rows());
        render_table(&header, &rows)
    }
}

} // verus!
