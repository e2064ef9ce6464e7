//! The typed commands of the interactive loop, and the pure parser that
//! maps one raw input line to the action it stands for.

use crate::text::lower_of;
use crate::text::lowercase;
use crate::text::str_eq;
use vstd::prelude::*;

verus! {

/// One user command, parsed from a single input line.
#[derive(Debug, PartialEq, Eq)]
pub enum Action {
    /// Print every buffer line whose lowercase form contains this
    /// (already lowercased) query.
    Search(String),
    /// Print the failure lines not reported before.
    Fail,
    /// Terminate the process.
    Exit,
    /// Save the buffer's content to disk.
    Save,
    /// Do nothing; prompt again.
    Skip,
}

/// The literal command tokens; any other non-empty input is a search.
pub open spec fn is_command_token(s: Seq<char>) -> bool {
    ||| s == "fail"@
    ||| s == "f"@
    ||| s == "exit"@
    ||| s == "write"@
    ||| s == "w"@
    ||| s == "save"@
    ||| s == "s"@
}

impl Action {
    /// Map one raw input line to its action: the empty line is a no-op,
    /// the fixed tokens select their commands, and every other input is
    /// a search for its lowercase form — never an error or a no-op.
    pub fn parse(input: &String) -> (action: Action)
        ensures
            input@.len() > 0 && !is_command_token(input@) ==> (action matches Action::Search(q)
                && q@ == lower_of(input@)),
            ({
                let s = input@;
                if s.len() == 0 {
                    action == Action::Skip
                } else if s == "fail"@ || s == "f"@ {
                    action == Action::Fail
                } else if s == "exit"@ {
                    action == Action::Exit
                } else if s == "write"@ || s == "w"@ || s == "save"@ || s == "s"@ {
                    action == Action::Save
                } else {
                    action matches Action::Search(q) && q@ == lower_of(s)
                }
            }),
    {
        proof {
            reveal_strlit("fail");
            reveal_strlit("f");
            reveal_strlit("exit");
            reveal_strlit("write");
            reveal_strlit("w");
            reveal_strlit("save");
            reveal_strlit("s");
        }
        let s = input.as_str();
        if s.is_empty() {
            Action::Skip
        } else if str_eq(s, "fail") || str_eq(s, "f") {
            Action::Fail
        } else if str_eq(s, "exit") {
            Action::Exit
        } else if str_eq(s, "write") || str_eq(s, "w") || str_eq(s, "save") || str_eq(s, "s") {
            Action::Save
        } else {
            Action::Search(lowercase(s))
        }
    }
}

} // verus!
