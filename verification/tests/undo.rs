use heyfocus_core::commands::{
    add_task_at, clear_focus_at, complete_task_at, delete_task_at, edit_task_at, move_task_at,
    set_focus_at,
};
use heyfocus_core::journal::add_log_extended;
use heyfocus_core::state::{AppData, CoreError, Event, Status};
use heyfocus_core::undo::undo_action;

fn ts() -> String {
    "2024-01-05T10:00:00".to_string()
}

fn add_active(data: &mut AppData, text: &str) {
    add_task_at(data, text.to_string(), Status::Active, ts()).unwrap();
}

fn task_tuples(data: &AppData) -> Vec<(u64, String, Status, bool)> {
    data.tasks.iter().map(|t| (t.id, t.text.clone(), t.status, t.is_focus)).collect()
}

#[test]
fn undo_on_empty_journal_is_refused() {
    let mut d = AppData::new();
    let r = undo_action(&mut d);
    assert!(matches!(r, Err(CoreError::NothingToUndo)));
}

#[test]
fn undo_add_task_removes_it_but_keeps_next_id() {
    let mut d = AppData::new();
    add_active(&mut d, "a");
    add_active(&mut d, "b");
    let before = task_tuples(&d);
    add_active(&mut d, "c");
    undo_action(&mut d).unwrap();
    assert_eq!(task_tuples(&d), before);
    // the id is not reused
    assert_eq!(d.next_id, 3);
    add_active(&mut d, "d");
    assert_eq!(d.tasks.last().unwrap().id, 3);
}

#[test]
fn undo_edit_restores_the_text() {
    let mut d = AppData::new();
    add_active(&mut d, "a");
    let before = task_tuples(&d);
    edit_task_at(&mut d, 0, "a2".to_string(), ts()).unwrap();
    undo_action(&mut d).unwrap();
    assert_eq!(task_tuples(&d), before);
}

#[test]
fn undo_move_restores_status_and_focus() {
    // S5: moving the focused task to Later unfocuses it; undo restores
    // both the status and the focus.
    let mut d = AppData::new();
    add_active(&mut d, "a");
    set_focus_at(&mut d, 0, ts(), false).unwrap();
    let before = task_tuples(&d);
    move_task_at(&mut d, 0, Status::Later, ts()).unwrap();
    assert!(!d.tasks[0].is_focus);
    assert_eq!(d.tasks[0].status, Status::Later);
    undo_action(&mut d).unwrap();
    assert_eq!(task_tuples(&d), before);
    assert!(d.tasks[0].is_focus);
}

#[test]
fn undo_complete_restores_the_task() {
    let mut d = AppData::new();
    add_active(&mut d, "a");
    add_active(&mut d, "b");
    complete_task_at(&mut d, 0, ts()).unwrap();
    undo_action(&mut d).unwrap();
    let mut got = task_tuples(&d);
    got.sort_by(|x, y| x.0.cmp(&y.0));
    assert_eq!(got, vec![
        (0, "a".to_string(), Status::Active, false),
        (1, "b".to_string(), Status::Active, false),
    ]);
    assert_eq!(d.logs.len(), 2);
}

#[test]
fn undo_delete_restores_a_parked_task() {
    let mut d = AppData::new();
    add_task_at(&mut d, "p".to_string(), Status::Later, ts()).unwrap();
    delete_task_at(&mut d, 0, ts()).unwrap();
    assert_eq!(d.tasks.len(), 0);
    undo_action(&mut d).unwrap();
    assert_eq!(task_tuples(&d), vec![(0, "p".to_string(), Status::Later, false)]);
}

#[test]
fn undo_set_focus_restores_the_previous_focus() {
    let mut d = AppData::new();
    add_active(&mut d, "a");
    add_active(&mut d, "b");
    set_focus_at(&mut d, 0, ts(), false).unwrap();
    let before = task_tuples(&d);
    set_focus_at(&mut d, 1, ts(), false).unwrap();
    undo_action(&mut d).unwrap();
    assert_eq!(task_tuples(&d), before);
}

#[test]
fn undo_clear_focus_refocuses_the_task() {
    let mut d = AppData::new();
    add_active(&mut d, "a");
    set_focus_at(&mut d, 0, ts(), false).unwrap();
    let before = task_tuples(&d);
    clear_focus_at(&mut d, ts(), false);
    undo_action(&mut d).unwrap();
    assert_eq!(task_tuples(&d), before);
}

#[test]
fn double_undo_after_removing_the_focused_task() {
    // P3: removing the focused task journals two entries; two undos
    // walk back to the original focus.
    let mut d = AppData::new();
    add_active(&mut d, "a");
    add_active(&mut d, "b");
    set_focus_at(&mut d, 0, ts(), false).unwrap();
    complete_task_at(&mut d, 0, ts()).unwrap();
    assert!(d.tasks[0].is_focus && d.tasks[0].text == "b");
    undo_action(&mut d).unwrap();
    // first undo reverses only the cascade
    assert!(d.tasks.iter().all(|t| !t.is_focus));
    assert_eq!(d.tasks.len(), 1);
    undo_action(&mut d).unwrap();
    let mut got = task_tuples(&d);
    got.sort_by(|x, y| x.0.cmp(&y.0));
    assert_eq!(got, vec![
        (0, "a".to_string(), Status::Active, true),
        (1, "b".to_string(), Status::Active, false),
    ]);
}

#[test]
fn consecutive_undos_walk_the_journal_to_empty() {
    let mut d = AppData::new();
    add_active(&mut d, "a");
    edit_task_at(&mut d, 0, "a2".to_string(), ts()).unwrap();
    move_task_at(&mut d, 0, Status::Later, ts()).unwrap();
    undo_action(&mut d).unwrap();
    undo_action(&mut d).unwrap();
    undo_action(&mut d).unwrap();
    assert_eq!(d.logs.len(), 0);
    assert_eq!(d.tasks.len(), 0);
    assert!(matches!(undo_action(&mut d), Err(CoreError::NothingToUndo)));
}

#[test]
fn undo_of_an_unknown_event_is_a_no_op() {
    let mut d = AppData::new();
    add_active(&mut d, "a");
    add_log_extended(&mut d, Event::Unknown, "?".to_string(), Some(0), None, None, None, None);
    let before = task_tuples(&d);
    undo_action(&mut d).unwrap();
    assert_eq!(task_tuples(&d), before);
    assert_eq!(d.logs.len(), 1);
}
