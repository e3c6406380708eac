use wazir_drop::history::History;

#[test]
fn test_history() {
    let mut history = History::new(10);
    history.push(1);
    history.push(2);
    history.push(3);
    history.push(4);
    history.push(3);
    history.pop();
    assert_eq!(history.find(10), None);
    assert_eq!(history.find(3), Some(12));
    assert_eq!(history.find(1), Some(10));
    assert_eq!(history.last_cut(), None);
    history.cut();
    assert_eq!(history.last_cut(), Some(14));
    assert_eq!(history.find(3), None);
    history.push(3);
    history.push(5);
    assert_eq!(history.find(3), Some(14));
    history.pop();
    history.pop();
    history.uncut();
    assert_eq!(history.find(3), Some(12));
}

#[test]
fn history_ply_counts_pushes() {
    let mut history = History::new(2);
    assert_eq!(history.ply(), 2);
    history.push(7);
    history.push(8);
    assert_eq!(history.ply(), 4);
    history.pop();
    assert_eq!(history.ply(), 3);
}

#[test]
fn history_find_repetition_same_side() {
    let mut history = History::new(0);
    history.push(100);
    history.push(200);
    history.push(100);
    assert_eq!(history.find_repetition(), Some(0));
    history.push(300);
    assert_eq!(history.find_repetition(), None);
    history.push(100);
    // ply 4 repeats ply 2 and ply 0; the most recent is reported
    assert_eq!(history.find_repetition(), Some(2));
}

#[test]
fn history_repetition_stops_at_cut() {
    let mut history = History::new(0);
    history.push(100);
    history.push(200);
    history.push_irreversible(100);
    assert!(history.last_move_irreversible());
    assert_eq!(history.find_repetition(), None);
    history.push(5);
    assert!(!history.last_move_irreversible());
}

#[test]
fn history_cut_uncut_restores() {
    let mut history = History::new(0);
    history.push(1);
    history.cut();
    assert_eq!(history.last_cut(), Some(1));
    history.uncut();
    assert_eq!(history.last_cut(), None);
    assert_eq!(history.find(1), Some(0));
}

#[test]
fn history_empty_has_no_repetition() {
    let history = History::new(0);
    assert_eq!(history.find_repetition(), None);
    assert!(!history.last_move_irreversible());
}

#[test]
fn history_pop_forgets_irreversible_mark() {
    let mut history = History::new(0);
    history.push(5);
    history.push(6);
    history.push(5);
    assert_eq!(history.find_repetition(), Some(0));
    history.push_irreversible(7);
    assert!(history.last_move_irreversible());
    history.pop();
    assert_eq!(history.last_cut(), None);
    assert_eq!(history.find_repetition(), Some(0));
    history.pop();
    assert_eq!(history.ply(), 2);
}

#[test]
fn history_pushes_then_pops_restore_everything() {
    let mut history = History::new(4);
    history.push(7);
    history.push(8);
    history.push(7);
    let before = (history.ply(), history.find(7), history.find_repetition(), history.last_move_irreversible());
    history.push_irreversible(9);
    history.push(7);
    history.push_irreversible(10);
    history.push(9);
    assert_eq!(history.find(7), None);
    history.pop();
    history.pop();
    history.pop();
    history.pop();
    let after = (history.ply(), history.find(7), history.find_repetition(), history.last_move_irreversible());
    assert_eq!(before, after);
    assert_eq!(history.find(7), Some(6));
}
