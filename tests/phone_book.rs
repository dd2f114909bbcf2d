use phone_book::{
    confirms, contacts_table, normalize_phone, parse_command, parse_index, BookError, Command,
    Contact, PhoneBook, SortOrder,
};

fn book_with(people: &[(&str, &str)]) -> PhoneBook {
    let mut book = PhoneBook::new();
    for (first, phone) in people {
        let r = book.create_contact(
            first.to_string(),
            String::new(),
            String::new(),
            String::new(),
            phone.to_string(),
        );
        assert_eq!(r, Ok(()));
    }
    book
}

fn first_names(view: &[&Contact]) -> Vec<String> {
    view.iter().map(|c| c.first_name.clone()).collect()
}

fn stored_names(book: &PhoneBook) -> Vec<String> {
    book.contacts().iter().map(|c| c.first_name.clone()).collect()
}

#[test]
fn ten_digits_are_formatted() {
    assert_eq!(normalize_phone("5551234567"), "(555) 123-4567");
    assert_eq!(normalize_phone("0987654321"), "(098) 765-4321");
}

#[test]
fn ten_digits_among_punctuation_are_formatted() {
    assert_eq!(normalize_phone("555-123-4567"), "(555) 123-4567");
    assert_eq!(normalize_phone("(555)1234567 ext"), "(555) 123-4567");
}

#[test]
fn other_digit_counts_keep_the_input() {
    assert_eq!(normalize_phone("12345"), "12345");
    assert_eq!(normalize_phone("+1 (555) 123-4567"), "+1 (555) 123-4567");
    assert_eq!(normalize_phone("call me"), "call me");
    assert_eq!(normalize_phone(""), "");
}

#[test]
fn new_contact_keeps_fields_and_normalizes_phone() {
    let c = Contact::new(
        "Ada".to_string(),
        "Lovelace".to_string(),
        "ada@example.com".to_string(),
        "12 Analytical St".to_string(),
        "555.123.4567".to_string(),
    );
    assert_eq!(c.first_name, "Ada");
    assert_eq!(c.last_name, "Lovelace");
    assert_eq!(c.email, "ada@example.com");
    assert_eq!(c.address, "12 Analytical St");
    assert_eq!(c.phone_number, "(555) 123-4567");
}

#[test]
fn new_book_is_empty() {
    assert_eq!(PhoneBook::new().len(), 0);
    assert_eq!(PhoneBook::default().len(), 0);
}

#[test]
fn create_then_list_shows_new_contact_last() {
    let mut book = book_with(&[("Grace", "5550000001")]);
    let r = book.create_contact(
        "Ada".to_string(),
        "Lovelace".to_string(),
        "ada@example.com".to_string(),
        "12 Analytical St".to_string(),
        "5551234567".to_string(),
    );
    assert_eq!(r, Ok(()));
    let listed = book.list_contacts_in_order("").unwrap();
    assert_eq!(listed.len(), 2);
    assert_eq!(listed[0].first_name, "Grace");
    let last = listed[1];
    assert_eq!(last.first_name, "Ada");
    assert_eq!(last.last_name, "Lovelace");
    assert_eq!(last.email, "ada@example.com");
    assert_eq!(last.address, "12 Analytical St");
    assert_eq!(last.phone_number, "(555) 123-4567");
}

#[test]
fn create_on_empty_book_adds_the_contact() {
    let mut book = PhoneBook::new();
    let r = book.create_contact("Ada".to_string(), String::new(), String::new(), String::new(), "5551234567".to_string());
    assert_eq!(r, Ok(()));
    assert_eq!(book.len(), 1);
    let c = &book.contacts()[0];
    assert_eq!(c.first_name, "Ada");
    assert_eq!(c.last_name, "");
    assert_eq!(c.email, "");
    assert_eq!(c.address, "");
    assert_eq!(c.phone_number, "(555) 123-4567");
}

#[test]
fn create_requires_first_name() {
    let mut book = book_with(&[("Grace", "5550000001")]);
    let r = book.create_contact(String::new(), "X".to_string(), String::new(), String::new(), "1".to_string());
    assert_eq!(r, Err(BookError::MissingFirstName));
    assert_eq!(stored_names(&book), vec!["Grace"]);
}

#[test]
fn create_requires_phone_number() {
    let mut book = PhoneBook::new();
    let r = book.create_contact("Ada".to_string(), String::new(), String::new(), String::new(), String::new());
    assert_eq!(r, Err(BookError::MissingPhoneNumber));
    assert_eq!(book.len(), 0);
}

#[test]
fn created_contacts_get_distinct_ids() {
    let book = book_with(&[("A", "1"), ("B", "2"), ("C", "3")]);
    let ids: Vec<u128> = book.contacts().iter().map(|c| c.id).collect();
    assert_ne!(ids[0], ids[1]);
    assert_ne!(ids[1], ids[2]);
    assert_ne!(ids[0], ids[2]);
}

#[test]
fn add_contact_refuses_a_used_id() {
    let mut book = PhoneBook::new();
    let a = Contact::with_id(7, "A".to_string(), String::new(), String::new(), String::new(), "1".to_string());
    let b = Contact::with_id(7, "B".to_string(), String::new(), String::new(), String::new(), "2".to_string());
    assert_eq!(book.add_contact(a), Ok(()));
    assert_eq!(book.add_contact(b), Err(BookError::DuplicateId));
    assert_eq!(stored_names(&book), vec!["A"]);
}

#[test]
fn parse_index_reads_decimal_numbers() {
    assert_eq!(parse_index("1"), Some(1));
    assert_eq!(parse_index("+2"), Some(2));
    assert_eq!(parse_index("007"), Some(7));
    assert_eq!(parse_index("18446744073709551615"), Some(18446744073709551615));
}

#[test]
fn parse_index_refuses_other_text() {
    assert_eq!(parse_index(""), None);
    assert_eq!(parse_index("+"), None);
    assert_eq!(parse_index("abc"), None);
    assert_eq!(parse_index("-1"), None);
    assert_eq!(parse_index("1.5"), None);
    assert_eq!(parse_index("18446744073709551616"), None);
}

#[test]
fn select_checks_bounds() {
    let book = book_with(&[("A", "1"), ("B", "2")]);
    assert_eq!(book.select("1"), Ok(1));
    assert_eq!(book.select("2"), Ok(2));
    assert_eq!(book.select("0"), Err(BookError::InvalidIndex));
    assert_eq!(book.select("3"), Err(BookError::InvalidIndex));
    assert_eq!(book.select("two"), Err(BookError::InvalidIndex));
}

#[test]
fn contact_at_is_one_based() {
    let book = book_with(&[("A", "1"), ("B", "2")]);
    assert_eq!(book.contact_at(2).unwrap().first_name, "B");
    assert!(book.contact_at(0).is_err());
    assert!(book.contact_at(3).is_err());
}

#[test]
fn delete_out_of_range_is_refused() {
    let mut book = book_with(&[("A", "1"), ("B", "2")]);
    assert!(matches!(book.delete_contact(0, "y"), Err(BookError::InvalidIndex)));
    assert!(matches!(book.delete_contact(3, "y"), Err(BookError::InvalidIndex)));
    assert_eq!(stored_names(&book), vec!["A", "B"]);
}

#[test]
fn delete_without_confirmation_keeps_everything() {
    let mut book = book_with(&[("A", "1"), ("B", "2")]);
    assert!(matches!(book.delete_contact(1, "n"), Err(BookError::NotConfirmed)));
    assert!(matches!(book.delete_contact(1, "Y"), Err(BookError::NotConfirmed)));
    assert!(matches!(book.delete_contact(1, ""), Err(BookError::NotConfirmed)));
    assert_eq!(stored_names(&book), vec!["A", "B"]);
}

#[test]
fn delete_confirmed_removes_exactly_that_entry() {
    let mut book = book_with(&[("A", "1"), ("B", "2"), ("C", "3")]);
    let removed = book.delete_contact(2, "y").unwrap();
    assert_eq!(removed.first_name, "B");
    assert_eq!(stored_names(&book), vec!["A", "C"]);
}

#[test]
fn update_replaces_all_fields_and_keeps_id() {
    let mut book = PhoneBook::new();
    book.create_contact("A".to_string(), "a".to_string(), "a@x".to_string(), "Street".to_string(), "1".to_string())
        .unwrap();
    book.create_contact("B".to_string(), String::new(), String::new(), String::new(), "2".to_string()).unwrap();
    let id = book.contacts()[0].id;
    let r = book.update_contact(
        1,
        "Ada".to_string(),
        "Lovelace".to_string(),
        "ada@example.com".to_string(),
        "Elsewhere".to_string(),
        "555 123 4567".to_string(),
    );
    assert_eq!(r, Ok(()));
    let c = &book.contacts()[0];
    assert_eq!(c.id, id);
    assert_eq!(c.first_name, "Ada");
    assert_eq!(c.last_name, "Lovelace");
    assert_eq!(c.email, "ada@example.com");
    assert_eq!(c.address, "Elsewhere");
    assert_eq!(c.phone_number, "(555) 123-4567");
    assert_eq!(book.contacts()[1].first_name, "B");
}

#[test]
fn update_can_clear_optional_fields() {
    let mut book = PhoneBook::new();
    book.create_contact("A".to_string(), "a".to_string(), "a@x".to_string(), "Street".to_string(), "1".to_string())
        .unwrap();
    book.update_contact(1, "A".to_string(), String::new(), String::new(), String::new(), "1".to_string()).unwrap();
    let c = &book.contacts()[0];
    assert_eq!(c.last_name, "");
    assert_eq!(c.email, "");
    assert_eq!(c.address, "");
}

#[test]
fn update_out_of_range_is_refused() {
    let mut book = book_with(&[("A", "1")]);
    for index in [0usize, 2] {
        let r = book.update_contact(index, "Z".to_string(), String::new(), String::new(), String::new(), "9".to_string());
        assert_eq!(r, Err(BookError::InvalidIndex));
    }
    assert_eq!(stored_names(&book), vec!["A"]);
    assert_eq!(book.contacts()[0].phone_number, "1");
}

#[test]
fn update_requires_first_name_and_phone() {
    let mut book = book_with(&[("A", "1")]);
    let r = book.update_contact(1, String::new(), String::new(), String::new(), String::new(), "9".to_string());
    assert_eq!(r, Err(BookError::MissingFirstName));
    let r = book.update_contact(1, "Z".to_string(), String::new(), String::new(), String::new(), String::new());
    assert_eq!(r, Err(BookError::MissingPhoneNumber));
    assert_eq!(stored_names(&book), vec!["A"]);
}

#[test]
fn ascending_and_descending_views_reverse_each_other() {
    let book = book_with(&[("Carol", "1"), ("alice", "2"), ("Bob", "3"), ("Alice", "4")]);
    let asc = book.sorted_view(SortOrder::Ascending);
    let desc = book.sorted_view(SortOrder::Descending);
    assert_eq!(first_names(&asc), vec!["Alice", "Bob", "Carol", "alice"]);
    let mut reversed = first_names(&desc);
    reversed.reverse();
    assert_eq!(first_names(&asc), reversed);
    assert_eq!(stored_names(&book), vec!["Carol", "alice", "Bob", "Alice"]);
}

#[test]
fn sorted_views_keep_creation_order_among_equal_names() {
    let book = book_with(&[("Bo", "1"), ("Al", "2"), ("Bo", "3"), ("Al", "4")]);
    let phones = |view: Vec<&Contact>| -> Vec<String> { view.iter().map(|c| c.phone_number.clone()).collect() };
    assert_eq!(phones(book.sorted_view(SortOrder::Ascending)), vec!["2", "4", "1", "3"]);
    assert_eq!(phones(book.sorted_view(SortOrder::Descending)), vec!["1", "3", "2", "4"]);
}

#[test]
fn sorted_views_list_names_backwards_with_repeats() {
    let book = book_with(&[("Bo", "1"), ("Al", "2"), ("Bo", "3"), ("Cy", "4"), ("Al", "5")]);
    let asc = first_names(&book.sorted_view(SortOrder::Ascending));
    let mut desc = first_names(&book.sorted_view(SortOrder::Descending));
    assert_eq!(asc, vec!["Al", "Al", "Bo", "Bo", "Cy"]);
    desc.reverse();
    assert_eq!(asc, desc);
}

#[test]
fn shorter_prefix_sorts_first() {
    let book = book_with(&[("Annabel", "1"), ("Ann", "2")]);
    let asc = book.sorted_view(SortOrder::Ascending);
    assert_eq!(first_names(&asc), vec!["Ann", "Annabel"]);
}

#[test]
fn list_in_order_accepts_asc_desc_and_none() {
    let book = book_with(&[("B", "1"), ("A", "2"), ("C", "3")]);
    assert_eq!(first_names(&book.list_contacts_in_order("asc").unwrap()), vec!["A", "B", "C"]);
    assert_eq!(first_names(&book.list_contacts_in_order("desc").unwrap()), vec!["C", "B", "A"]);
    assert_eq!(first_names(&book.list_contacts_in_order("").unwrap()), vec!["B", "A", "C"]);
    assert!(matches!(book.list_contacts_in_order("sideways"), Err(BookError::InvalidOrder)));
    assert_eq!(stored_names(&book), vec!["B", "A", "C"]);
}

#[test]
fn search_ignores_case() {
    let book = book_with(&[("Ada", "1"), ("Grace", "2")]);
    assert_eq!(first_names(&book.search_contact("ADA")), vec!["Ada"]);
    assert_eq!(first_names(&book.search_contact("aCe")), vec!["Grace"]);
}

#[test]
fn search_looks_at_all_five_fields() {
    let mut book = PhoneBook::new();
    book.create_contact("A".to_string(), "Smith".to_string(), String::new(), String::new(), "1".to_string()).unwrap();
    book.create_contact("B".to_string(), String::new(), "b@mail.org".to_string(), String::new(), "2".to_string()).unwrap();
    book.create_contact("C".to_string(), String::new(), String::new(), "Main Road".to_string(), "3".to_string()).unwrap();
    book.create_contact("D".to_string(), String::new(), String::new(), String::new(), "5551234567".to_string()).unwrap();
    assert_eq!(first_names(&book.search_contact("smi")), vec!["A"]);
    assert_eq!(first_names(&book.search_contact("MAIL")), vec!["B"]);
    assert_eq!(first_names(&book.search_contact("road")), vec!["C"]);
    assert_eq!(first_names(&book.search_contact("123-45")), vec!["D"]);
    assert_eq!(first_names(&book.search_contact("")), vec!["A", "B", "C", "D"]);
}

#[test]
fn search_without_match_gives_the_no_match_message() {
    let book = book_with(&[("Ada", "1")]);
    let found = book.search_contact("zzz");
    assert!(found.is_empty());
    let text = contacts_table(&found, "No contacts found matching the search query.");
    assert_eq!(text, "No contacts found matching the search query.");
}

#[test]
fn empty_listing_gives_its_message() {
    let book = PhoneBook::new();
    let all = book.list_contacts_in_order("").unwrap();
    assert_eq!(contacts_table(&all, "No contacts found."), "No contacts found.");
}

#[test]
fn csv_import_maps_columns() {
    let mut book = PhoneBook::new();
    let outcomes = book.load_contacts_from_csv(b"first_name,phone\nAda,5551234567\n").unwrap();
    assert_eq!(outcomes, vec![Ok(())]);
    assert_eq!(book.len(), 1);
    let c = &book.contacts()[0];
    assert_eq!(c.first_name, "Ada");
    assert_eq!(c.phone_number, "(555) 123-4567");
    assert_eq!(c.last_name, "");
    assert_eq!(c.email, "");
    assert_eq!(c.address, "");
}

#[test]
fn csv_import_reads_all_columns_in_any_order() {
    let mut book = PhoneBook::new();
    let data = b"phone,nickname,address,email,last_name,first_name\n555 000 1111,Bo,1 Road,bo@x.org,Smith,Bob\n";
    let outcomes = book.load_contacts_from_csv(data).unwrap();
    assert_eq!(outcomes, vec![Ok(())]);
    let c = &book.contacts()[0];
    assert_eq!(c.first_name, "Bob");
    assert_eq!(c.last_name, "Smith");
    assert_eq!(c.email, "bo@x.org");
    assert_eq!(c.address, "1 Road");
    assert_eq!(c.phone_number, "(555) 000-1111");
}

#[test]
fn csv_import_skips_bad_records_and_goes_on() {
    let mut book = book_with(&[("Old", "0")]);
    let data = b"first_name,phone\nAda,5551234567\nBob\n,5550000000\nCy,\nDi,42\n";
    let outcomes = book.load_contacts_from_csv(data).unwrap();
    assert_eq!(
        outcomes,
        vec![
            Ok(()),
            Err(BookError::MalformedRecord),
            Err(BookError::MissingFirstName),
            Err(BookError::MissingPhoneNumber),
            Ok(()),
        ]
    );
    assert_eq!(stored_names(&book), vec!["Old", "Ada", "Di"]);
    assert_eq!(book.contacts()[2].phone_number, "42");
}

#[test]
fn csv_import_without_records_changes_nothing() {
    let mut book = PhoneBook::new();
    assert_eq!(book.load_contacts_from_csv(b"first_name,phone\n").unwrap(), Vec::new());
    assert_eq!(book.len(), 0);
}

#[test]
fn csv_import_with_unreadable_header_is_refused() {
    let mut book = book_with(&[("Old", "0")]);
    let r = book.load_contacts_from_csv(b"first_\xffname,phone\nAda,1\n");
    assert_eq!(r, Err(BookError::UnreadableHeader));
    assert_eq!(stored_names(&book), vec!["Old"]);
}

#[test]
fn contact_table_shows_every_field() {
    let c = Contact::new(
        "Ada".to_string(),
        "Lovelace".to_string(),
        "ada@example.com".to_string(),
        "12 Analytical St".to_string(),
        "5551234567".to_string(),
    );
    let text = c.print_contact();
    for part in ["First Name", "Phone Number", "Ada", "Lovelace", "ada@example.com", "12 Analytical St", "(555) 123-4567"] {
        assert!(text.contains(part), "missing {part}");
    }
    assert!(text.starts_with('╭'));
    assert_eq!(text.lines().count(), 5);
}

#[test]
fn contacts_table_numbers_rows_from_one() {
    let book = book_with(&[("Ada", "1"), ("Grace", "2")]);
    let all = book.list_contacts_in_order("").unwrap();
    let text = contacts_table(&all, "No contacts found.");
    let lines: Vec<&str> = text.lines().collect();
    assert_eq!(lines.len(), 7);
    assert!(lines[3].starts_with("│ 1 ┆ Ada"));
    assert!(lines[5].starts_with("│ 2 ┆ Grace"));
}

#[test]
fn operations_table_lists_every_command() {
    let text = PhoneBook::new().show_operations();
    for part in ["Option", "Description", "C | c", "Q | q", "F | f", "U | u", "D | d", "E | e", "L | l", "A | a", "Z | z", "? | ?", "Fuzzy Query", "List in original order based on creation time"] {
        assert!(text.contains(part), "missing {part}");
    }
}

#[test]
fn commands_are_single_letters_in_either_case() {
    assert_eq!(parse_command("C"), Command::Create);
    assert_eq!(parse_command("c"), Command::Create);
    assert_eq!(parse_command("q"), Command::Query);
    assert_eq!(parse_command("F"), Command::Upload);
    assert_eq!(parse_command("u"), Command::Update);
    assert_eq!(parse_command("D"), Command::Delete);
    assert_eq!(parse_command("e"), Command::Exit);
    assert_eq!(parse_command("L"), Command::List);
    assert_eq!(parse_command("a"), Command::ListAscending);
    assert_eq!(parse_command("Z"), Command::ListDescending);
    assert_eq!(parse_command("?"), Command::Help);
}

#[test]
fn other_input_is_an_invalid_command() {
    assert_eq!(parse_command(""), Command::Invalid);
    assert_eq!(parse_command("x"), Command::Invalid);
    assert_eq!(parse_command("cc"), Command::Invalid);
    assert_eq!(parse_command("create"), Command::Invalid);
}

#[test]
fn only_a_lower_case_y_confirms() {
    assert!(confirms("y"));
    assert!(!confirms("Y"));
    assert!(!confirms("yes"));
    assert!(!confirms("n"));
    assert!(!confirms(""));
}

#[test]
fn error_messages() {
    assert_eq!(BookError::InvalidIndex.message(), "Invalid contact index!");
    assert_eq!(BookError::MissingFirstName.message(), "First name is required.");
    assert_eq!(BookError::MissingPhoneNumber.message(), "Phone number is required.");
    assert_eq!(BookError::NotConfirmed.message(), "Contact deletion cancelled.");
    assert_eq!(BookError::InvalidOrder.message(), "Invalid order parameter. Please use 'asc' or 'desc'.");
}
