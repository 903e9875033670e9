use vstd::prelude::*;

use crate::screen::CleanOutcome;

verus! {

/// How the program runs: with its window, or cleaning the hosts file and exiting.
#[derive(Clone, Copy, Debug, PartialEq, Eq, Structural)]
pub enum RunMode {
    Window,
    CleanOnly,
}

/// The one argument that asks for a clean without a window.
pub open spec fn clean_word() -> Seq<char> {
    seq!['c', 'l', 'e', 'a', 'n']
}

/// The mode that the command line asks for: clean-only exactly when the
/// program's name is followed by the single argument `clean`.
pub fn mode_of(args: &Vec<String>) -> (r: RunMode)
    ensures
        r == (if args@.len() == 2 && args@[1]@ == clean_word() {
            RunMode::CleanOnly
        } else {
            RunMode::Window
        }),
{
    let word = "clean".to_owned();
    proof {
        reveal_strlit("clean");
        assert(word@ =~= clean_word());
    }
    if args.len() == 2 && args[1] == word {
        RunMode::CleanOnly
    } else {
        RunMode::Window
    }
}

/// The exit status of a clean-only run: zero on success, one on any failure.
pub fn exit_status(outcome: &CleanOutcome) -> (r: i32)
    ensures
        r == (if outcome is Success {
            0i32
        } else {
            1i32
        }),
{
    match outcome {
        CleanOutcome::Success => 0,
        _ => 1,
    }
}

} // verus!
