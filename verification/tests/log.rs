use hypr_recall::log::{is_quiet, is_verbose, set_quiet, set_verbose, Verbosity};

#[test]
fn verbose_toggle_round_trips() {
    let mut level = Verbosity::default();
    set_verbose(&mut level, true);
    assert!(is_verbose(&level));
    set_verbose(&mut level, false);
    assert!(!is_verbose(&level));
}

#[test]
fn quiet_toggle_round_trips() {
    let mut level = Verbosity::default();
    set_quiet(&mut level, true);
    assert!(is_quiet(&level));
    set_quiet(&mut level, false);
    assert!(!is_quiet(&level));
}

#[test]
fn the_two_flags_are_separate() {
    let mut level = Verbosity::default();
    assert!(!is_verbose(&level));
    assert!(!is_quiet(&level));
    set_verbose(&mut level, true);
    assert!(!is_quiet(&level));
    set_quiet(&mut level, true);
    assert!(is_verbose(&level));
}
