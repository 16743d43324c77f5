use vstd::prelude::*;

use crate::standings::text::chars_of;

verus! {

/// The actions of the interactive menu.
#[derive(Clone, Copy, Debug, PartialEq, Eq, Structural)]
pub enum Commands {
    PrintTable,
    AddResult,
    ReadResultFile,
    ReadTableFile,
    SaveTableToFile,
    Exit,
}

/// The lower-case form of `s`, as `str::to_lowercase` gives it.
pub uninterp spec fn lower_of(s: Seq<char>) -> Seq<char>;

/// Relies on `str::to_lowercase`: its result depends on the characters of `s` alone.
#[verifier::external_body]
fn lowercase(s: &str) -> (r: String)
    ensures
        r@ == lower_of(s@),
{
    s.to_lowercase()
}

/// The menu entry that the text `s` selects: `1` to `6`.
pub open spec fn command_of(s: Seq<char>) -> Option<Commands> {
    if s.len() != 1 {
        None
    } else if s[0] == '1' {
        Some(Commands::PrintTable)
    } else if s[0] == '2' {
        Some(Commands::AddResult)
    } else if s[0] == '3' {
        Some(Commands::ReadResultFile)
    } else if s[0] == '4' {
        Some(Commands::ReadTableFile)
    } else if s[0] == '5' {
        Some(Commands::SaveTableToFile)
    } else if s[0] == '6' {
        Some(Commands::Exit)
    } else {
        None
    }
}

impl Commands {
    /// The menu entry that the input selects, compared in lower case.
    pub fn from_string(s: &str) -> (r: Option<Commands>)
        ensures
            r == command_of(lower_of(s@)),
    {
        let lowered = lowercase(s);
        Commands::from_lowercase(lowered.as_str())
    }

    /// The menu entry that already lower-cased input selects.
    pub fn from_lowercase(s: &str) -> (r: Option<Commands>)
        ensures
            r == command_of(s@),
    {
        let v = chars_of(s);
        if v.len() != 1 {
            None
        } else if v[0] == '1' {
            Some(Commands::PrintTable)
        } else if v[0] == '2' {
            Some(Commands::AddResult)
        } else if v[0] == '3' {
            Some(Commands::ReadResultFile)
        } else if v[0] == '4' {
            Some(Commands::ReadTableFile)
        } else if v[0] == '5' {
            Some(Commands::SaveTableToFile)
        } else if v[0] == '6' {
            Some(Commands::Exit)
        } else {
            None
        }
    }
}

} // verus!
