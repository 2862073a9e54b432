use arca::lantern::history::History;

#[test]
fn push_and_step() {
    let mut h = History::new();
    assert!(h.current().is_none());
    h.push("/a");
    h.push("/b");
    h.push("/c");
    assert_eq!(h.current(), Some("/c"));
    assert!(h.can_go_back());
    assert!(!h.can_go_forward());

    assert_eq!(h.go_back(), Some("/b"));
    assert_eq!(h.go_back(), Some("/a"));
    assert_eq!(h.go_back(), None);
    assert!(!h.can_go_back());

    assert_eq!(h.go_forward(), Some("/b"));
    assert_eq!(h.go_forward(), Some("/c"));
    assert_eq!(h.go_forward(), None);
}

#[test]
fn push_truncates_forward_history() {
    let mut h = History::new();
    h.push("/a");
    h.push("/b");
    h.go_back();
    h.push("/x");
    assert!(!h.can_go_forward());
    assert_eq!(h.current(), Some("/x"));
    assert_eq!(h.go_back(), Some("/a"));
}

#[test]
fn revisiting_current_does_not_duplicate() {
    let mut h = History::new();
    h.push("/a");
    h.push("/a");
    assert_eq!(h.go_back(), None);
}

#[test]
fn history_back_then_forward_restores_position() {
    let mut h = History::new();
    h.push("/a");
    h.push("/b");
    let before = h.current().map(|s| s.to_string());
    h.go_back();
    h.go_forward();
    assert_eq!(h.current().map(|s| s.to_string()), before);
    let cloned = h.clone();
    assert_eq!(cloned.current(), Some("/b"));
}

#[test]
fn push_then_back_returns_to_previous() {
    let mut h = History::new();
    h.push("/a");
    h.push("/b");
    assert_eq!(h.go_back(), Some("/a"));
    assert_eq!(h.current(), Some("/a"));
}
