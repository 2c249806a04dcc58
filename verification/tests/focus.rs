use heyfocus_core::commands::{
    add_task_at, clear_focus_at, complete_task_at, set_focus_at,
};
use heyfocus_core::state::{AppData, CoreError, Event, Status};

fn ts() -> String {
    "2024-01-05T10:00:00".to_string()
}

fn add_active(data: &mut AppData, text: &str) {
    add_task_at(data, text.to_string(), Status::Active, ts()).unwrap();
}

fn focused_ids(data: &AppData) -> Vec<u64> {
    data.tasks.iter().filter(|t| t.is_focus).map(|t| t.id).collect()
}

#[test]
fn set_focus_focuses_exactly_one_task() {
    let mut d = AppData::new();
    add_active(&mut d, "a");
    add_active(&mut d, "b");
    set_focus_at(&mut d, 0, ts(), false).unwrap();
    assert_eq!(focused_ids(&d), vec![0]);
    set_focus_at(&mut d, 1, ts(), false).unwrap();
    assert_eq!(focused_ids(&d), vec![1]);
}

#[test]
fn set_focus_refuses_parked_and_unknown_tasks() {
    let mut d = AppData::new();
    add_task_at(&mut d, "p".to_string(), Status::Later, ts()).unwrap();
    let r = set_focus_at(&mut d, 0, ts(), false);
    assert!(matches!(r, Err(CoreError::NotActive)));
    let r = set_focus_at(&mut d, 9, ts(), false);
    assert!(matches!(r, Err(CoreError::NotActive)));
    assert!(d.logs.len() == 1);
}

#[test]
fn focus_cascade_on_completing_the_focused_task() {
    // S2: completing the focused task promotes the first remaining
    // active task, with a separate plain focus-switch entry.
    let mut d = AppData::new();
    add_active(&mut d, "a");
    add_active(&mut d, "b");
    set_focus_at(&mut d, 0, ts(), false).unwrap();
    complete_task_at(&mut d, 0, ts()).unwrap();
    assert_eq!(d.tasks.len(), 1);
    assert_eq!(d.tasks[0].text, "b");
    assert!(d.tasks[0].is_focus);
    let n = d.logs.len();
    assert_eq!(d.logs[n - 1].event, Event::SwitchFocus);
    assert_eq!(d.logs[n - 1].task, "b");
    assert_eq!(d.logs[n - 1].prev_focus_id, None);
    assert_eq!(d.logs[n - 2].event, Event::TaskDone);
    assert_eq!(d.logs[n - 2].task, "a");
}

#[test]
fn focus_merge_collapses_a_skim_into_one_entry() {
    // S3: three focus switches within the window leave one journal
    // entry, pointing at the last task, with no previous focus.
    let mut d = AppData::new();
    add_active(&mut d, "a");
    add_active(&mut d, "b");
    add_active(&mut d, "c");
    set_focus_at(&mut d, 0, ts(), false).unwrap();
    set_focus_at(&mut d, 1, ts(), true).unwrap();
    set_focus_at(&mut d, 2, ts(), true).unwrap();
    let switches: Vec<_> = d.logs.iter().filter(|e| e.event == Event::SwitchFocus).collect();
    assert_eq!(switches.len(), 1);
    assert_eq!(switches[0].task, "c");
    assert_eq!(switches[0].task_id, Some(2));
    assert_eq!(switches[0].prev_focus_id, None);
    assert_eq!(focused_ids(&d), vec![2]);
}

#[test]
fn focus_merge_keeps_the_episode_start() {
    let mut d = AppData::new();
    add_active(&mut d, "a");
    add_active(&mut d, "b");
    set_focus_at(&mut d, 0, ts(), false).unwrap();
    // later, outside any window: a fresh entry records the old focus
    set_focus_at(&mut d, 1, ts(), false).unwrap();
    // a quick switch back merges into that entry, keeping its origin
    set_focus_at(&mut d, 0, ts(), true).unwrap();
    let n = d.logs.len();
    assert_eq!(d.logs[n - 1].event, Event::SwitchFocus);
    assert_eq!(d.logs[n - 1].task_id, Some(0));
    assert_eq!(d.logs[n - 1].prev_focus_id, Some(0));
}

#[test]
fn clear_focus_erases_an_ephemeral_focus_episode() {
    // S4: a set_focus followed by clear_focus within the window leaves
    // no trace of the episode in the journal.
    let mut d = AppData::new();
    add_active(&mut d, "a");
    set_focus_at(&mut d, 0, ts(), false).unwrap();
    clear_focus_at(&mut d, ts(), true);
    assert_eq!(d.logs.len(), 1);
    assert_eq!(d.logs[0].event, Event::TaskCreated);
    assert_eq!(focused_ids(&d), Vec::<u64>::new());
}

#[test]
fn clear_focus_outside_the_window_journals_the_clear() {
    let mut d = AppData::new();
    add_active(&mut d, "a");
    set_focus_at(&mut d, 0, ts(), false).unwrap();
    clear_focus_at(&mut d, ts(), false);
    let e = d.logs.last().unwrap();
    assert_eq!(e.event, Event::ClearFocus);
    assert_eq!(e.task_id, Some(0));
    assert_eq!(e.prev_focus, Some(true));
    assert_eq!(focused_ids(&d), Vec::<u64>::new());
}

#[test]
fn clear_focus_on_empty_focus_is_a_silent_no_op() {
    // P4: no focused task means no state change and no journal entry.
    let mut d = AppData::new();
    add_active(&mut d, "a");
    let logs_before = d.logs.len();
    clear_focus_at(&mut d, ts(), false);
    clear_focus_at(&mut d, ts(), true);
    assert_eq!(d.logs.len(), logs_before);
    assert_eq!(d.tasks.len(), 1);
    assert!(!d.tasks[0].is_focus);
}
