//! These tests drive the commands that read the real clock, so the
//! chrono-backed wrappers actually run: consecutive calls land within
//! the thirty-second merge window, which makes the merge and collapse
//! behaviour deterministic here too.

use heyfocus_core::commands::{add_task, clear_focus, complete_task, set_focus};
use heyfocus_core::state::{AppData, CoreError, Event, Status};
use heyfocus_core::undo::undo_action;

#[test]
fn clocked_commands_stamp_wall_time() {
    let mut d = AppData::new();
    add_task(&mut d, "a".to_string(), Status::Active).unwrap();
    assert_eq!(d.logs.len(), 1);
    let time = &d.logs[0].time;
    // YYYY-MM-DDTHH:MM:SS
    assert_eq!(time.len(), 19);
    assert_eq!(time.as_bytes()[4], b'-');
    assert_eq!(time.as_bytes()[10], b'T');
    assert_eq!(time.as_bytes()[13], b':');
}

#[test]
fn clocked_focus_switches_merge_within_the_window() {
    let mut d = AppData::new();
    add_task(&mut d, "a".to_string(), Status::Active).unwrap();
    add_task(&mut d, "b".to_string(), Status::Active).unwrap();
    set_focus(&mut d, 0).unwrap();
    set_focus(&mut d, 1).unwrap();
    let switches: Vec<_> = d.logs.iter().filter(|e| e.event == Event::SwitchFocus).collect();
    assert_eq!(switches.len(), 1);
    assert_eq!(switches[0].task_id, Some(1));
    assert_eq!(switches[0].prev_focus_id, None);
}

#[test]
fn clocked_clear_focus_erases_a_fresh_episode() {
    let mut d = AppData::new();
    add_task(&mut d, "a".to_string(), Status::Active).unwrap();
    set_focus(&mut d, 0).unwrap();
    clear_focus(&mut d);
    assert_eq!(d.logs.len(), 1);
    assert_eq!(d.logs[0].event, Event::TaskCreated);
    assert!(!d.tasks[0].is_focus);
}

#[test]
fn clocked_complete_and_undo_round_trip() {
    let mut d = AppData::new();
    add_task(&mut d, "a".to_string(), Status::Active).unwrap();
    complete_task(&mut d, 0).unwrap();
    assert_eq!(d.tasks.len(), 0);
    undo_action(&mut d).unwrap();
    assert_eq!(d.tasks.len(), 1);
    assert_eq!(d.tasks[0].text, "a");
    let r = complete_task(&mut d, 5);
    assert!(matches!(r, Err(CoreError::NotFound)));
}
