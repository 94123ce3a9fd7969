use app_focus::matcher::app_matches;

#[test]
fn reflexive_and_case_insensitive() {
    assert!(app_matches("Firefox", "firefox"));
    assert!(app_matches("firefox", "firefox"));
    assert!(app_matches("FIREFOX", "firefox"));
    assert!(app_matches("firefox", "FiReFox"));
}

#[test]
fn suffix_matches_in_both_directions() {
    assert!(app_matches("firefox", "org.mozilla.firefox"));
    assert!(app_matches("org.mozilla.firefox", "firefox"));
    assert!(app_matches("mozilla.firefox", "org.mozilla.firefox"));
    assert!(app_matches("ORG.Mozilla.Firefox", "firefox"));
}

#[test]
fn no_spurious_substring_match() {
    assert!(!app_matches("fire", "firefox"));
    assert!(!app_matches("firefox", "fire"));
    assert!(!app_matches("refox", "firefox"));
    assert!(!app_matches("org.mozilla", "org.mozilla.firefox"));
}

#[test]
fn empty_identifiers_never_match() {
    assert!(!app_matches("", "x"));
    assert!(!app_matches("x", ""));
    assert!(!app_matches("", ""));
}

#[test]
fn unrelated_identifiers_do_not_match() {
    assert!(!app_matches("org.gnome.Nautilus", "org.mozilla.firefox"));
    assert!(!app_matches("firefox", "firefox-nightly"));
}
