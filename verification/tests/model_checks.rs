use derive_core::diagnostic::{Diagnostic, Location};
use derive_core::model::{all_distinct, Visibility};
use derive_core::text::join;

#[test]
fn diagnostic_keeps_message_and_place() {
    let d = Diagnostic::new("expected enumeration".to_string(), Location { slot: 3 });
    assert_eq!(d.message, "expected enumeration");
    assert_eq!(d.location, Location { slot: 3 });
}

#[test]
fn visibility_is_copied_as_written() {
    assert_eq!(Visibility::Private.duplicate(), Visibility::Private);
    assert_eq!(Visibility::Public.duplicate(), Visibility::Public);
    let scoped = Visibility::Restricted("pub(crate)".to_string());
    assert_eq!(scoped.duplicate(), Visibility::Restricted("pub(crate)".to_string()));
}

#[test]
fn join_puts_the_separator_between_neighbours() {
    let parts = vec!["a".to_string(), "".to_string(), "c".to_string()];
    assert_eq!(join(&parts, ", "), "a, , c");
    assert_eq!(join(&vec!["only".to_string()], "::"), "only");
    assert_eq!(join(&vec![], "::"), "");
    assert_eq!(join(&vec!["x".to_string(), "y".to_string()], ""), "xy");
}

#[test]
fn distinct_names_are_told_from_repeated_ones() {
    assert!(all_distinct(&vec![]));
    assert!(all_distinct(&vec!["a".to_string(), "b".to_string(), "A".to_string()]));
    assert!(!all_distinct(&vec!["a".to_string(), "b".to_string(), "a".to_string()]));
    assert!(!all_distinct(&vec!["a".to_string(), "a".to_string()]));
}
