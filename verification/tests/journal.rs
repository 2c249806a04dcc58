use heyfocus_core::commands::{add_task_at, clear_logs, set_focus_at};
use heyfocus_core::journal::{add_log, add_log_extended};
use heyfocus_core::state::{AppData, Event, Status};
use heyfocus_core::undo::undo_action;

fn ts() -> String {
    "2024-01-05T10:00:00".to_string()
}

#[test]
fn snapshot_every_ten_entries_capped_at_five() {
    // S6: after 25 commands the snapshots sit at journal lengths 10 and
    // 20; after 55 the ring holds the last five multiples of ten.
    let mut d = AppData::new();
    for i in 0..25u32 {
        add_task_at(&mut d, format!("t{}", i), Status::Later, ts()).unwrap();
    }
    let indices: Vec<usize> = d.snapshots.iter().map(|s| s.log_index).collect();
    assert_eq!(indices, vec![10, 20]);
    for i in 25..55u32 {
        add_task_at(&mut d, format!("t{}", i), Status::Later, ts()).unwrap();
    }
    let indices: Vec<usize> = d.snapshots.iter().map(|s| s.log_index).collect();
    assert_eq!(indices, vec![10, 20, 30, 40, 50]);
}

#[test]
fn snapshots_copy_the_tasks_and_next_id() {
    let mut d = AppData::new();
    for i in 0..10u32 {
        add_task_at(&mut d, format!("t{}", i), Status::Later, ts()).unwrap();
    }
    assert_eq!(d.snapshots.len(), 1);
    let s = &d.snapshots[0];
    assert_eq!(s.log_index, 10);
    assert_eq!(s.tasks.len(), 10);
    assert_eq!(s.next_id, 10);
}

#[test]
fn undo_does_not_roll_back_snapshots() {
    let mut d = AppData::new();
    for i in 0..10u32 {
        add_task_at(&mut d, format!("t{}", i), Status::Later, ts()).unwrap();
    }
    assert_eq!(d.snapshots.len(), 1);
    undo_action(&mut d).unwrap();
    assert_eq!(d.logs.len(), 9);
    assert_eq!(d.snapshots.len(), 1);
}

#[test]
fn clear_logs_empties_journal_and_snapshots_only() {
    let mut d = AppData::new();
    for i in 0..12u32 {
        add_task_at(&mut d, format!("t{}", i), Status::Later, ts()).unwrap();
    }
    clear_logs(&mut d);
    assert_eq!(d.logs.len(), 0);
    assert_eq!(d.snapshots.len(), 0);
    assert_eq!(d.tasks.len(), 12);
    assert_eq!(d.next_id, 12);
}

#[test]
fn add_log_records_the_event_and_text_only() {
    let mut d = AppData::new();
    add_log(&mut d, Event::SwitchFocus, "a".to_string());
    assert_eq!(d.logs.len(), 1);
    let e = &d.logs[0];
    assert_eq!(e.event, Event::SwitchFocus);
    assert_eq!(e.task, "a");
    assert_eq!(e.task_id, None);
    assert_eq!(e.prev_focus_id, None);
}

#[test]
fn add_log_extended_keeps_every_inverse_field() {
    let mut d = AppData::new();
    add_log_extended(
        &mut d,
        Event::MoveToLater,
        "a".to_string(),
        Some(3),
        Some(Status::Active),
        Some("old".to_string()),
        Some(true),
        Some(7),
    );
    let e = &d.logs[0];
    assert_eq!(e.event, Event::MoveToLater);
    assert_eq!(e.task_id, Some(3));
    assert_eq!(e.prev_status, Some(Status::Active));
    assert_eq!(e.prev_text.as_deref(), Some("old"));
    assert_eq!(e.prev_focus, Some(true));
    assert_eq!(e.prev_focus_id, Some(7));
}

#[test]
fn merged_focus_switch_does_not_grow_the_journal() {
    // P5: a focus switch within the window rewrites the tail in place.
    let mut d = AppData::new();
    add_task_at(&mut d, "a".to_string(), Status::Active, ts()).unwrap();
    add_task_at(&mut d, "b".to_string(), Status::Active, ts()).unwrap();
    set_focus_at(&mut d, 0, ts(), false).unwrap();
    let len_after_first = d.logs.len();
    set_focus_at(&mut d, 1, ts(), true).unwrap();
    assert_eq!(d.logs.len(), len_after_first);
}
