//! The command-line surface: what to do, and on which paths; and the reading
//! of a yes-or-no answer.

use vstd::prelude::*;

verus! {

/// What the command-line tool does.
#[derive(Clone, Copy, PartialEq, Eq, Structural)]
pub enum Command {
    /// Write the archive of deltas from `old` to `new` at `destination`.
    Diff,
    /// Apply the archive `new` to `old` into `destination`.
    Patch,
}

/// The arguments of the command-line tool.
pub struct Argument {
    pub subcommand: Command,
    pub old: String,
    pub new: String,
    pub destination: String,
}

/// The answers read as a yes.
pub open spec fn is_yes(a: Seq<char>) -> bool {
    a == "y"@ || a == "yes"@ || a == "o"@ || a == "oui"@
}

/// The answers read as a no.
pub open spec fn is_no(a: Seq<char>) -> bool {
    a == "n"@ || a == "no"@ || a == "non"@
}

/// Reads an answer to a yes-or-no question, in English or in French; none
/// for any other answer.
pub fn parse_confirmation(answer: &String) -> (r: Option<bool>)
    ensures
        is_yes(answer@) ==> r == Some(true),
        is_no(answer@) ==> r == Some(false),
        !is_yes(answer@) && !is_no(answer@) ==> r is None,
{
    proof {
        reveal_strlit("y");
        reveal_strlit("yes");
        reveal_strlit("o");
        reveal_strlit("oui");
        reveal_strlit("n");
        reveal_strlit("no");
        reveal_strlit("non");
        if is_no(answer@) {
            assert(answer@[0] == 'n');
            assert(!is_yes(answer@));
        }
    }
    let yes = ["y".to_owned(), "yes".to_owned(), "o".to_owned(), "oui".to_owned()];
    let no = ["n".to_owned(), "no".to_owned(), "non".to_owned()];
    if *answer == yes[0] || *answer == yes[1] || *answer == yes[2] || *answer == yes[3] {
        Some(true)
    } else if *answer == no[0] || *answer == no[1] || *answer == no[2] {
        Some(false)
    } else {
        None
    }
}

} // verus!
