use mojang_auth::mode::{exit_status, mode_of, RunMode};
use mojang_auth::screen::{update, Action, CleanOutcome, Event, LoadError, Screen};

#[test]
fn load_without_match_shows_clean() {
    let (s, a) = update(Screen::Loading, Event::Loaded(Ok(Vec::new())));
    assert!(matches!(s, Screen::Clean));
    assert_eq!(a, Action::Nothing);
}

#[test]
fn load_with_matches_shows_them() {
    let lines = vec![String::from("1.2.3.4 mojang.com")];
    let (s, a) = update(Screen::Loading, Event::Loaded(Ok(lines.clone())));
    match s {
        Screen::Modified(found) => assert_eq!(found, lines),
        other => panic!("unexpected screen {:?}", other),
    }
    assert_eq!(a, Action::Nothing);
}

#[test]
fn load_error_shows_failure() {
    let (s, _) = update(Screen::Loading, Event::Loaded(Err(LoadError::FileError)));
    assert!(matches!(s, Screen::LoadFailed));
}

#[test]
fn clean_pressed_asks_for_clean() {
    let (s, a) = update(Screen::Modified(vec![String::from("x mojang.com")]), Event::CleanPressed);
    assert!(matches!(s, Screen::Cleaning));
    assert_eq!(a, Action::Clean);
}

#[test]
fn clean_pressed_on_clean_file_does_nothing() {
    let (s, a) = update(Screen::Clean, Event::CleanPressed);
    assert!(matches!(s, Screen::Clean));
    assert_eq!(a, Action::Nothing);
}

#[test]
fn clean_success_shows_cleaned() {
    let (s, a) = update(Screen::Cleaning, Event::CleanDone(CleanOutcome::Success));
    assert!(matches!(s, Screen::Cleaned));
    assert_eq!(a, Action::Nothing);
}

#[test]
fn other_failure_shows_message() {
    let (s, a) = update(Screen::Cleaning, Event::CleanDone(CleanOutcome::OtherFailure(String::from("disk full"))));
    match s {
        Screen::Failed(Some(m)) => assert_eq!(m, "disk full"),
        other => panic!("unexpected screen {:?}", other),
    }
    assert_eq!(a, Action::Nothing);
}

#[test]
fn permission_denied_elevates_once() {
    let mut s = Screen::Cleaning;
    let events = vec![
        Event::CleanDone(CleanOutcome::PermissionDenied),
        Event::CleanDone(CleanOutcome::PermissionDenied),
        Event::CleanPressed,
        Event::ElevationDone(false),
        Event::CleanPressed,
        Event::CleanDone(CleanOutcome::PermissionDenied),
    ];
    let mut elevations = 0;
    for e in events {
        let (next, a) = update(s, e);
        if a == Action::Elevate {
            elevations += 1;
        }
        s = next;
    }
    assert_eq!(elevations, 1);
    assert!(matches!(s, Screen::Failed(None)));
}

#[test]
fn elevation_success_shows_cleaned() {
    let (s, a) = update(Screen::Cleaning, Event::CleanDone(CleanOutcome::PermissionDenied));
    assert!(matches!(s, Screen::ElevationPrompt));
    assert_eq!(a, Action::Elevate);
    let (s, a) = update(s, Event::ElevationDone(true));
    assert!(matches!(s, Screen::Cleaned));
    assert_eq!(a, Action::Nothing);
}

#[test]
fn mode_from_arguments() {
    let args = |v: &[&str]| v.iter().map(|s| String::from(*s)).collect::<Vec<String>>();
    assert_eq!(mode_of(&args(&["prog", "clean"])), RunMode::CleanOnly);
    assert_eq!(mode_of(&args(&["prog"])), RunMode::Window);
    assert_eq!(mode_of(&args(&["prog", "Clean"])), RunMode::Window);
    assert_eq!(mode_of(&args(&["prog", "clean", "x"])), RunMode::Window);
}

#[test]
fn exit_status_of_outcomes() {
    assert_eq!(exit_status(&CleanOutcome::Success), 0);
    assert_eq!(exit_status(&CleanOutcome::PermissionDenied), 1);
    assert_eq!(exit_status(&CleanOutcome::OtherFailure(String::from("e"))), 1);
}
