use vstd::prelude::*;

use crate::hosts::matching;
use crate::lines::lines_of;

verus! {

/// Why the hosts file could not be read.
#[derive(Clone, Copy, Debug, PartialEq, Eq, Structural)]
pub enum LoadError {
    FileError,
}

/// How an attempt to rewrite the hosts file ended.
#[derive(Debug)]
pub enum CleanOutcome {
    Success,
    PermissionDenied,
    OtherFailure(String),
}

/// What the window shows.
#[derive(Debug)]
pub enum Screen {
    Loading,
    /// The file holds no line with the target.
    Clean,
    /// The file holds these lines with the target.
    Modified(Vec<String>),
    LoadFailed,
    Cleaning,
    /// The clean was refused for want of rights; an elevated run is under way.
    ElevationPrompt,
    Cleaned,
    /// The clean failed: with the error's message, or without one when the
    /// elevated run failed.
    Failed(Option<String>),
}

/// What happens to the window.
#[derive(Debug)]
pub enum Event {
    /// The scan of the hosts file ended: the lines with the target, or an error.
    Loaded(Result<Vec<String>, LoadError>),
    CleanPressed,
    /// The rewrite of the hosts file ended.
    CleanDone(CleanOutcome),
    /// The elevated run ended: whether it exited with success.
    ElevationDone(bool),
}

/// What the caller is asked to carry out after a step.
#[derive(Clone, Copy, Debug, PartialEq, Eq, Structural)]
pub enum Action {
    Nothing,
    /// Rewrite the hosts file without the lines with the target.
    Clean,
    /// Run this program again with raised rights, in clean-only mode.
    Elevate,
}

/// One step of the window: the next screen and the action it asks for.
pub open spec fn next(s: Screen, e: Event) -> (Screen, Action) {
    match (s, e) {
        (Screen::Loading, Event::Loaded(Ok(found))) => if found@.len() == 0 {
            (Screen::Clean, Action::Nothing)
        } else {
            (Screen::Modified(found), Action::Nothing)
        },
        (Screen::Loading, Event::Loaded(Err(_))) => (Screen::LoadFailed, Action::Nothing),
        (Screen::Modified(_), Event::CleanPressed) => (Screen::Cleaning, Action::Clean),
        (Screen::Cleaning, Event::CleanDone(outcome)) => match outcome {
            CleanOutcome::Success => (Screen::Cleaned, Action::Nothing),
            CleanOutcome::PermissionDenied => (Screen::ElevationPrompt, Action::Elevate),
            CleanOutcome::OtherFailure(msg) => (Screen::Failed(Some(msg)), Action::Nothing),
        },
        (Screen::ElevationPrompt, Event::ElevationDone(ok)) => if ok {
            (Screen::Cleaned, Action::Nothing)
        } else {
            (Screen::Failed(None), Action::Nothing)
        },
        (s, _) => (s, Action::Nothing),
    }
}

/// Takes one step of the window.
pub fn update(s: Screen, e: Event) -> (r: (Screen, Action))
    ensures
        r == next(s, e),
{
    match (s, e) {
        (Screen::Loading, Event::Loaded(Ok(found))) => if found.len() == 0 {
            (Screen::Clean, Action::Nothing)
        } else {
            (Screen::Modified(found), Action::Nothing)
        },
        (Screen::Loading, Event::Loaded(Err(_))) => (Screen::LoadFailed, Action::Nothing),
        (Screen::Modified(_), Event::CleanPressed) => (Screen::Cleaning, Action::Clean),
        (Screen::Cleaning, Event::CleanDone(outcome)) => match outcome {
            CleanOutcome::Success => (Screen::Cleaned, Action::Nothing),
            CleanOutcome::PermissionDenied => (Screen::ElevationPrompt, Action::Elevate),
            CleanOutcome::OtherFailure(msg) => (Screen::Failed(Some(msg)), Action::Nothing),
        },
        (Screen::ElevationPrompt, Event::ElevationDone(ok)) => if ok {
            (Screen::Cleaned, Action::Nothing)
        } else {
            (Screen::Failed(None), Action::Nothing)
        },
        (s, _) => (s, Action::Nothing),
    }
}

/// The screen after a run of events, and the actions asked for on the way.
pub open spec fn run(s: Screen, es: Seq<Event>) -> (Screen, Seq<Action>)
    decreases es.len(),
{
    if es.len() == 0 {
        (s, seq![])
    } else {
        let (s1, a) = next(s, es[0]);
        let (last, acts) = run(s1, es.drop_first());
        (last, seq![a] + acts)
    }
}

/// How many elevated runs `acts` asks for.
pub open spec fn elevations(acts: Seq<Action>) -> nat
    decreases acts.len(),
{
    if acts.len() == 0 {
        0
    } else {
        (if acts[0] == Action::Elevate {
            1nat
        } else {
            0nat
        }) + elevations(acts.drop_first())
    }
}

/// A screen from which no event leads back to a clean attempt.
pub open spec fn settled(s: Screen) -> bool {
    match s {
        Screen::Clean | Screen::LoadFailed | Screen::ElevationPrompt | Screen::Cleaned
        | Screen::Failed(_) => true,
        _ => false,
    }
}

/// From a settled screen no run of events asks for an elevated run.
pub proof fn lemma_settled_never_elevates(s: Screen, es: Seq<Event>)
    requires
        settled(s),
    ensures
        elevations(run(s, es).1) == 0,
        settled(run(s, es).0),
    decreases es.len(),
{
    if es.len() > 0 {
        lemma_settled_never_elevates(next(s, es[0]).0, es.drop_first());
        assert((seq![next(s, es[0]).1] + run(next(s, es[0]).0, es.drop_first()).1).drop_first()
            =~= run(next(s, es[0]).0, es.drop_first()).1);
    }
}

/// Whatever the screen and the events, at most one elevated run is asked for.
pub proof fn lemma_at_most_one_elevation(s: Screen, es: Seq<Event>)
    ensures
        elevations(run(s, es).1) <= 1,
    decreases es.len(),
{
    if es.len() > 0 {
        let (s1, a) = next(s, es[0]);
        let rest = run(s1, es.drop_first()).1;
        assert((seq![a] + rest).drop_first() =~= rest);
        if a == Action::Elevate {
            lemma_settled_never_elevates(s1, es.drop_first());
        } else {
            lemma_at_most_one_elevation(s1, es.drop_first());
        }
    }
}

/// When the clean is refused for want of rights, the screen turns to the
/// elevation prompt, and exactly one elevated run is asked for, whatever
/// events come after.
pub proof fn lemma_denied_elevates_once(es: Seq<Event>)
    requires
        es.len() > 0,
        es[0] matches Event::CleanDone(CleanOutcome::PermissionDenied),
    ensures
        next(Screen::Cleaning, es[0]) == (Screen::ElevationPrompt, Action::Elevate),
        elevations(run(Screen::Cleaning, es).1) == 1,
{
    let rest = run(Screen::ElevationPrompt, es.drop_first()).1;
    lemma_settled_never_elevates(Screen::ElevationPrompt, es.drop_first());
    assert((seq![Action::Elevate] + rest).drop_first() =~= rest);
}

/// A scan that finds no line with the target hands an empty list to the
/// window, which then shows the file as clean.
pub proof fn lemma_no_match_shows_clean(text: Seq<char>, target: Seq<char>, found: Vec<String>)
    requires
        forall|i: int|
            0 <= i < lines_of(text).len() ==> !crate::search::has_sub(
                #[trigger] lines_of(text)[i],
                target,
            ),
        found@.map_values(|l: String| l@) == matching(lines_of(text), target),
    ensures
        found@.len() == 0,
        next(Screen::Loading, Event::Loaded(Ok(found))).0 == Screen::Clean,
{
    crate::hosts::lemma_matching_none(lines_of(text), target);
    assert(found@.map_values(|l: String| l@).len() == found@.len());
}

} // verus!
