//! A phone book: contact records with phone normalization, an ordered store
//! with create, update, delete, fuzzy search and sorted views, a CSV import,
//! table rendering and the mapping of one-letter commands.

pub mod text;
pub mod contact;
pub mod book;
pub mod import;
pub mod order;
pub mod search;
pub mod render;
pub mod command;

pub use book::{BookError, PhoneBook, check_first_name, check_phone_number, parse_index};
pub use command::{Command, confirms, parse_command};
pub use contact::{Contact, normalize_phone};
pub use order::SortOrder;
pub use render::contacts_table;
