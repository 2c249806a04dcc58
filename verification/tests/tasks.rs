use heyfocus_core::commands::{
    add_task_at, complete_task_at, count_active_tasks, delete_task_at, edit_task_at, load_data,
    move_task_at,
};
use heyfocus_core::state::{AppData, CoreError, Event, Status};

fn ts() -> String {
    "2024-01-05T10:00:00".to_string()
}

fn add_active(data: &mut AppData, text: &str) {
    add_task_at(data, text.to_string(), Status::Active, ts()).unwrap();
}

#[test]
fn add_task_assigns_increasing_ids() {
    let mut d = AppData::new();
    add_active(&mut d, "a");
    add_active(&mut d, "b");
    assert_eq!(d.tasks.len(), 2);
    assert_eq!(d.tasks[0].id, 0);
    assert_eq!(d.tasks[1].id, 1);
    assert_eq!(d.next_id, 2);
    assert_eq!(d.tasks[0].text, "a");
    assert!(!d.tasks[0].is_focus);
    assert_eq!(d.logs.len(), 2);
    assert_eq!(d.logs[0].event, Event::TaskCreated);
    assert_eq!(d.logs[0].task_id, Some(0));
}

#[test]
fn capacity_guard_on_sixth_active_task() {
    // S1: five active tasks fill the capacity; a sixth is refused and
    // the state is untouched.
    let mut d = AppData::new();
    for t in ["a", "b", "c", "d", "e"] {
        add_active(&mut d, t);
    }
    let before_len = d.tasks.len();
    let before_logs = d.logs.len();
    let r = add_task_at(&mut d, "f".to_string(), Status::Active, ts());
    assert!(matches!(r, Err(CoreError::CapacityExceeded)));
    assert_eq!(d.tasks.len(), before_len);
    assert_eq!(d.logs.len(), before_logs);
    assert_eq!(count_active_tasks(&d.tasks), 5);
}

#[test]
fn later_tasks_are_not_capped() {
    let mut d = AppData::new();
    for t in ["a", "b", "c", "d", "e"] {
        add_active(&mut d, t);
    }
    for t in ["p", "q", "r"] {
        add_task_at(&mut d, t.to_string(), Status::Later, ts()).unwrap();
    }
    assert_eq!(d.tasks.len(), 8);
    assert_eq!(count_active_tasks(&d.tasks), 5);
}

#[test]
fn move_task_to_later_and_back() {
    let mut d = AppData::new();
    add_active(&mut d, "a");
    move_task_at(&mut d, 0, Status::Later, ts()).unwrap();
    assert_eq!(d.tasks[0].status, Status::Later);
    assert_eq!(d.logs[1].event, Event::MoveToLater);
    assert_eq!(d.logs[1].prev_status, Some(Status::Active));
    move_task_at(&mut d, 0, Status::Active, ts()).unwrap();
    assert_eq!(d.tasks[0].status, Status::Active);
    assert_eq!(d.logs[2].event, Event::MoveToActive);
}

#[test]
fn move_task_capacity_guard_applies_to_parked_tasks_only() {
    let mut d = AppData::new();
    for t in ["a", "b", "c", "d", "e"] {
        add_active(&mut d, t);
    }
    add_task_at(&mut d, "p".to_string(), Status::Later, ts()).unwrap();
    let r = move_task_at(&mut d, 5, Status::Active, ts());
    assert!(matches!(r, Err(CoreError::CapacityExceeded)));
    // re-activating an already active task is a no-op for capacity
    move_task_at(&mut d, 0, Status::Active, ts()).unwrap();
}

#[test]
fn move_task_unknown_id_is_not_found() {
    let mut d = AppData::new();
    add_active(&mut d, "a");
    let r = move_task_at(&mut d, 7, Status::Later, ts());
    assert!(matches!(r, Err(CoreError::NotFound)));
    assert_eq!(d.logs.len(), 1);
}

#[test]
fn edit_task_replaces_text_and_journals_previous() {
    let mut d = AppData::new();
    add_active(&mut d, "a");
    edit_task_at(&mut d, 0, "a2".to_string(), ts()).unwrap();
    assert_eq!(d.tasks[0].text, "a2");
    let e = d.logs.last().unwrap();
    assert_eq!(e.event, Event::TaskEdited);
    assert_eq!(e.prev_text.as_deref(), Some("a"));
    assert_eq!(e.task, "a2");
    let r = edit_task_at(&mut d, 9, "x".to_string(), ts());
    assert!(matches!(r, Err(CoreError::NotFound)));
}

#[test]
fn complete_task_removes_and_journals_inverse_fields() {
    let mut d = AppData::new();
    add_active(&mut d, "a");
    add_active(&mut d, "b");
    complete_task_at(&mut d, 0, ts()).unwrap();
    assert_eq!(d.tasks.len(), 1);
    assert_eq!(d.tasks[0].text, "b");
    let e = d.logs.last().unwrap();
    assert_eq!(e.event, Event::TaskDone);
    assert_eq!(e.task_id, Some(0));
    assert_eq!(e.prev_status, Some(Status::Active));
    assert_eq!(e.prev_text.as_deref(), Some("a"));
    assert_eq!(e.prev_focus, Some(false));
}

#[test]
fn delete_task_unknown_id_is_not_found() {
    let mut d = AppData::new();
    let r = delete_task_at(&mut d, 0, ts());
    assert!(matches!(r, Err(CoreError::NotFound)));
}

#[test]
fn load_data_returns_an_equal_copy() {
    let mut d = AppData::new();
    add_active(&mut d, "a");
    edit_task_at(&mut d, 0, "a2".to_string(), ts()).unwrap();
    let c = load_data(&d);
    assert_eq!(c.tasks.len(), d.tasks.len());
    assert_eq!(c.tasks[0].id, d.tasks[0].id);
    assert_eq!(c.tasks[0].text, d.tasks[0].text);
    assert_eq!(c.logs.len(), d.logs.len());
    assert_eq!(c.next_id, d.next_id);
    // mutating the copy leaves the original alone
    let mut c = c;
    c.tasks[0].text = "other".to_string();
    assert_eq!(d.tasks[0].text, "a2");
}
