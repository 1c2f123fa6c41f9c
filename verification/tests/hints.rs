use supabar::hints::InputValidator;
use supabar::hints::{get_app_hints, CommandHint, DIYHinter};

#[test]
fn hint_completes_whole_name() {
    let h = CommandHint::new("firefox", "firefox");
    assert_eq!(h.display(), "firefox");
    assert_eq!(h.complete_up_to(), 7);
    assert_eq!(h.completion(), Some("firefox"));
}

#[test]
fn hint_without_completion() {
    let h = CommandHint::new("abc", "");
    assert_eq!(h.complete_up_to(), 0);
    assert_eq!(h.completion(), None);
}

#[test]
fn hint_completion_counts_bytes() {
    let h = CommandHint::new("héllo", "hé");
    assert_eq!(h.complete_up_to(), 3);
    assert_eq!(h.completion(), Some("hé"));
}

#[test]
fn hint_suffix_strips_bytes() {
    let h = CommandHint::new("firefox", "firefox");
    let s = h.suffix(3);
    assert_eq!(s.display(), "efox");
    assert_eq!(s.complete_up_to(), 4);
    assert_eq!(s.completion(), Some("efox"));
}

#[test]
fn hint_suffix_past_completion() {
    let h = CommandHint::new("firefox", "fire");
    let s = h.suffix(5);
    assert_eq!(s.display(), "ox");
    assert_eq!(s.complete_up_to(), 0);
    assert_eq!(s.completion(), None);
}

#[test]
fn hint_suffix_twice_is_suffix_once() {
    let h = CommandHint::new("terminal", "term");
    let a = h.suffix(2).suffix(3);
    let b = h.suffix(5);
    assert_eq!(a.display(), b.display());
    assert_eq!(a.complete_up_to(), b.complete_up_to());
    assert_eq!(b.display(), "nal");
}

#[test]
fn app_hints_are_distinct() {
    let apps = vec!["firefox".to_string(), "files".to_string(), "firefox".to_string()];
    let hints = get_app_hints(&apps);
    assert_eq!(hints.len(), 2);
    assert_eq!(hints[0].display(), "firefox");
    assert_eq!(hints[0].complete_up_to(), 7);
    assert_eq!(hints[1].display(), "files");
    assert_eq!(hints[1].complete_up_to(), 5);
}

#[test]
fn app_hints_of_nothing() {
    let hints = get_app_hints(&Vec::new());
    assert_eq!(hints.len(), 0);
}

#[test]
fn hinter_completes_typed_line() {
    let apps = vec!["firefox".to_string(), "files".to_string()];
    let hinter = DIYHinter::new(get_app_hints(&apps));
    let h = hinter.hint("fi", 2).expect("a hint");
    assert_eq!(h.display(), "refox");
    assert_eq!(h.complete_up_to(), 5);
    let h = hinter.hint("fil", 3).expect("a hint");
    assert_eq!(format!("fil{}", h.display()), "files");
}

#[test]
fn hinter_silent_cases() {
    let apps = vec!["firefox".to_string()];
    let hinter = DIYHinter::new(get_app_hints(&apps));
    assert!(hinter.hint("", 0).is_none());
    assert!(hinter.hint("fi", 1).is_none());
    assert!(hinter.hint("zz", 2).is_none());
}

#[test]
fn validator_needs_input() {
    assert!(InputValidator.validate("x"));
    assert!(!InputValidator.validate(""));
}

#[test]
fn hinter_keeps_each_hint_once() {
    let hints = vec![
        CommandHint::new("abc", "abc"),
        CommandHint::new("abc", "abc"),
        CommandHint::new("abc", ""),
        CommandHint::new("abd", "abd"),
    ];
    let hinter = DIYHinter::new(hints);
    let h = hinter.hint("ab", 2).expect("a hint");
    assert_eq!(h.display(), "c");
    assert_eq!(h.complete_up_to(), 1);
    let h = hinter.hint("abd", 3).expect("a hint");
    assert_eq!(h.display(), "");
}
