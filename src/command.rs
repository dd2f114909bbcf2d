//! The one-letter commands of the interactive loop.

use vstd::prelude::*;
use crate::text::chars_of;

verus! {

/// A command typed at the prompt.
#[derive(Clone, Copy, Debug, PartialEq, Eq, Structural)]
pub enum Command {
    /// `C`: create a contact.
    Create,
    /// `Q`: fuzzy query.
    Query,
    /// `F`: upload contacts from a CSV file.
    Upload,
    /// `U`: update a contact.
    Update,
    /// `D`: delete a contact.
    Delete,
    /// `E`: exit, once confirmed.
    Exit,
    /// `L`: list in creation order.
    List,
    /// `A`: list sorted by first name, A to Z.
    ListAscending,
    /// `Z`: list sorted by first name, Z to A.
    ListDescending,
    /// `?`: show the operations.
    Help,
    /// Anything else.
    Invalid,
}

/// The command that a line names: one of the letters `C Q F U D E L A Z`,
/// in either case, or `?`; anything else is invalid.
pub open spec fn command_of(s: Seq<char>) -> Command {
    if s.len() != 1 {
        Command::Invalid
    } else {
        match s[0] {
            'C' | 'c' => Command::Create,
            'Q' | 'q' => Command::Query,
            'F' | 'f' => Command::Upload,
            'U' | 'u' => Command::Update,
            'D' | 'd' => Command::Delete,
            'E' | 'e' => Command::Exit,
            'L' | 'l' => Command::List,
            'A' | 'a' => Command::ListAscending,
            'Z' | 'z' => Command::ListDescending,
            '?' => Command::Help,
            _ => Command::Invalid,
        }
    }
}

/// The command that `input` (already trimmed) names.
pub fn parse_command(input: &str) -> (r: Command)
    ensures
        r == command_of(input@),
{
    let cs = chars_of(input);
    if cs.len() != 1 {
        return Command::Invalid;
    }
    match cs[0] {
        'C' | 'c' => Command::Create,
        'Q' | 'q' => Command::Query,
        'F' | 'f' => Command::Upload,
        'U' | 'u' => Command::Update,
        'D' | 'd' => Command::Delete,
        'E' | 'e' => Command::Exit,
        'L' | 'l' => Command::List,
        'A' | 'a' => Command::ListAscending,
        'Z' | 'z' => Command::ListDescending,
        '?' => Command::Help,
        _ => Command::Invalid,
    }
}

/// Whether an answer to a yes/no prompt confirms: exactly `y`.
pub fn confirms(answer: &str) -> (r: bool)
    ensures
        r == (answer@ == seq!['y']),
{
    let cs = chars_of(answer);
    if cs.len() == 1 && cs[0] == 'y' {
        assert(answer@ =~= seq!['y']);
        true
    } else {
        false
    }
}

} // verus!
