use enzato::history::{Action, History};

#[test]
fn undo_on_empty_history_is_none() {
    let mut h = History::new();
    assert_eq!(h.undo(), None);
    assert_eq!(h.redo(), None);
}

#[test]
fn undo_returns_the_inverse_of_the_last_edit() {
    let mut h = History::new();
    h.record(Action::Insert(0, 'a'));
    h.record(Action::Delete(3, 'b'));
    assert_eq!(h.undo(), Some(Action::Insert(3, 'b')));
    assert_eq!(h.undo(), Some(Action::Delete(0, 'a')));
    assert_eq!(h.undo(), None);
}

#[test]
fn redo_after_undo_returns_the_edit() {
    let mut h = History::new();
    h.record(Action::Insert(0, 'a'));
    h.record(Action::Insert(1, 'b'));
    h.undo();
    h.undo();
    assert_eq!(h.redo(), Some(Action::Insert(0, 'a')));
    assert_eq!(h.redo(), Some(Action::Insert(1, 'b')));
    assert_eq!(h.redo(), None);
    assert_eq!(h.undo(), Some(Action::Delete(1, 'b')));
}

#[test]
fn record_forgets_what_could_be_redone() {
    let mut h = History::new();
    h.record(Action::Insert(0, 'a'));
    h.undo();
    h.record(Action::Insert(0, 'z'));
    assert_eq!(h.redo(), None);
    assert_eq!(h.undo(), Some(Action::Delete(0, 'z')));
    assert_eq!(h.undo(), None);
}

#[test]
fn clear_forgets_everything() {
    let mut h = History::new();
    h.record(Action::Insert(0, 'a'));
    h.record(Action::Insert(1, 'b'));
    h.undo();
    h.clear();
    assert_eq!(h.undo(), None);
    assert_eq!(h.redo(), None);
}
