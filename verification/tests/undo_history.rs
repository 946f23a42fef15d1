use flow_state::undo::{History, Snapshot};

fn snap(text: &str, col: usize) -> Snapshot {
    Snapshot { text: text.to_string(), cursor: (0, col) }
}

/// Simulates the app: record pre-edit state, then "apply" the edit.
#[test]
fn coalesces_typing_runs_and_truncates_redo() {
    let mut h = History::default();
    let mut state = snap("", 0);
    let mut typed = String::new();
    for ch in "hello world".chars() {
        h.record(state.clone(), !ch.is_whitespace());
        typed.push(ch);
        state = snap(&typed, typed.chars().count());
    }
    assert_eq!(state.text, "hello world");

    // Word-level granularity: "world" → "hello " → "hello" → "".
    state = h.undo(state).unwrap();
    assert_eq!(state.text, "hello ");
    state = h.undo(state).unwrap();
    assert_eq!(state.text, "hello");
    state = h.undo(state).unwrap();
    assert_eq!(state.text, "");
    assert!(h.undo(state.clone()).is_none());

    state = h.redo(state).unwrap();
    assert_eq!(state.text, "hello");

    // A new edit truncates the redo stack.
    h.record(state.clone(), false);
    assert!(h.redo(snap("hello!", 6)).is_none());
}

#[test]
fn break_run_splits_an_otherwise_coalesced_run() {
    let mut h = History::default();
    h.record(snap("", 0), true);
    h.break_run();
    h.record(snap("ab", 2), true);
    let s = h.undo(snap("abcd", 4)).unwrap();
    assert_eq!(s.text, "ab", "movement broke the typing run");
}

#[test]
fn redo_after_undo_gives_back_the_undone_state() {
    let mut h = History::default();
    h.record(snap("a", 1), false);
    let current = snap("ab", 2);
    let before = h.undo(current.clone()).unwrap();
    assert_eq!(before, snap("a", 1));
    let again = h.redo(before).unwrap();
    assert_eq!(again, current);
}

#[test]
fn undo_on_empty_history_gives_nothing() {
    let mut h = History::default();
    assert!(h.undo(snap("x", 1)).is_none());
    assert!(h.redo(snap("x", 1)).is_none());
}
