//! The command surface of the state machine. Each command has an exact
//! model (`spec_*`) of its effect on the state; the `*_at` functions
//! take the clock readings as arguments and are verified against that
//! model for every reading, and the plain functions read the clock
//! through the trusted wrappers.

use vstd::prelude::*;
use vstd::pervasive::VecAdditionalExecFns;

use crate::clock;
use crate::journal::{
    add_log_entry, lemma_add_log_preserves_inv, spec_add_log,
};
use crate::state::{
    clone_logs, clone_opt_string, clone_snapshots, clone_tasks, count_active,
    first_active_index, focus_applied, focus_index, focus_ok, has_task, inv, is_active,
    is_focused, is_id, lemma_count_active_bounds, lemma_count_active_push,
    lemma_count_active_pointwise, lemma_count_active_remove, lemma_count_active_update,
    lemma_first_index, lemma_first_index_at, task_index, with_focus_target, AppData, CoreError,
    Event, LogEntry, Model, Status, Task, MAX_ACTIVE,
};

verus! {

// ---------------------------------------------------------------------
// Searches and counting over the task vector.
// ---------------------------------------------------------------------

/// Index of the first task with the given id, if any.
pub fn find_task(tasks: &Vec<Task>, id: u64) -> (r: Option<usize>)
    ensures
        match r {
            Some(i) => task_index(tasks@, id) == i as int && i < tasks.len() && tasks@[i as int].id
                == id,
            None => task_index(tasks@, id) == -1,
        },
{
    let n = tasks.len();
    let mut i: usize = 0;
    while i < n
        invariant
            i <= n,
            n == tasks.len(),
            forall|j: int| 0 <= j < i ==> #[trigger] tasks@[j].id != id,
        decreases n - i,
    {
        if tasks[i].id == id {
            proof {
                assert forall|j: int| 0 <= j < i implies !is_id(id)(tasks@[j]) by {
                    assert(tasks@[j].id != id);
                }
                lemma_first_index_at(tasks@, is_id(id), i as int);
            }
            return Some(i);
        }
        i += 1;
    }
    proof {
        lemma_first_index(tasks@, is_id(id));
        if task_index(tasks@, id) >= 0 {
            assert(is_id(id)(tasks@[task_index(tasks@, id)]));
        }
    }
    None
}

/// Index of the first focused task, if any.
pub fn find_focused(tasks: &Vec<Task>) -> (r: Option<usize>)
    ensures
        match r {
            Some(i) => focus_index(tasks@) == i as int && i < tasks.len()
                && tasks@[i as int].is_focus,
            None => focus_index(tasks@) == -1,
        },
{
    let n = tasks.len();
    let mut i: usize = 0;
    while i < n
        invariant
            i <= n,
            n == tasks.len(),
            forall|j: int| 0 <= j < i ==> !(#[trigger] tasks@[j].is_focus),
        decreases n - i,
    {
        if tasks[i].is_focus {
            proof {
                assert forall|j: int| 0 <= j < i implies !is_focused()(tasks@[j]) by {
                    assert(!tasks@[j].is_focus);
                }
                lemma_first_index_at(tasks@, is_focused(), i as int);
            }
            return Some(i);
        }
        i += 1;
    }
    proof {
        lemma_first_index(tasks@, is_focused());
        if focus_index(tasks@) >= 0 {
            assert(is_focused()(tasks@[focus_index(tasks@)]));
        }
    }
    None
}

/// Index of the first active task, if any.
pub fn find_first_active(tasks: &Vec<Task>) -> (r: Option<usize>)
    ensures
        match r {
            Some(i) => first_active_index(tasks@) == i as int && i < tasks.len()
                && tasks@[i as int].status == Status::Active,
            None => first_active_index(tasks@) == -1,
        },
{
    let n = tasks.len();
    let mut i: usize = 0;
    while i < n
        invariant
            i <= n,
            n == tasks.len(),
            forall|j: int| 0 <= j < i ==> #[trigger] tasks@[j].status != Status::Active,
        decreases n - i,
    {
        if tasks[i].status == Status::Active {
            proof {
                assert forall|j: int| 0 <= j < i implies !is_active()(tasks@[j]) by {
                    assert(tasks@[j].status != Status::Active);
                }
                lemma_first_index_at(tasks@, is_active(), i as int);
            }
            return Some(i);
        }
        i += 1;
    }
    proof {
        lemma_first_index(tasks@, is_active());
        if first_active_index(tasks@) >= 0 {
            assert(is_active()(tasks@[first_active_index(tasks@)]));
        }
    }
    None
}

/// How many tasks are active.
pub fn count_active_tasks(tasks: &Vec<Task>) -> (n: usize)
    ensures
        n as int == count_active(tasks@),
{
    let len = tasks.len();
    let mut n: usize = 0;
    let mut i: usize = 0;
    while i < len
        invariant
            i <= len,
            len == tasks.len(),
            n <= i,
            n as int == count_active(tasks@.take(i as int)),
        decreases len - i,
    {
        proof {
            assert(tasks@.take(i + 1).drop_last() =~= tasks@.take(i as int));
            assert(tasks@.take(i + 1).last() == tasks@[i as int]);
        }
        if tasks[i].status == Status::Active {
            n = n + 1;
        }
        i += 1;
    }
    proof {
        assert(tasks@.take(len as int) =~= tasks@);
    }
    n
}

/// Rewrite every focus flag so that exactly the target id (if any, and
/// if present) is focused.
pub fn apply_focus_target(tasks: &mut Vec<Task>, target: Option<u64>)
    ensures
        final(tasks)@ == with_focus_target(old(tasks)@, target),
{
    let n = tasks.len();
    let mut i: usize = 0;
    while i < n
        invariant
            i <= n,
            n == tasks.len(),
            tasks@.len() == old(tasks)@.len(),
            forall|j: int| i <= j < n ==> #[trigger] tasks@[j] == old(tasks)@[j],
            forall|j: int| 0 <= j < i ==> #[trigger] tasks@[j] == focus_applied(
                old(tasks)@[j],
                target,
            ),
        decreases n - i,
    {
        let focus = match target {
            Some(id) => tasks[i].id == id,
            None => false,
        };
        let t = &tasks[i];
        let t2 = Task { id: t.id, text: t.text.clone(), status: t.status, is_focus: focus };
        tasks.set(i, t2);
        i += 1;
    }
    proof {
        assert(tasks@ =~= with_focus_target(old(tasks)@, target));
    }
}

// ---------------------------------------------------------------------
// add_task
// ---------------------------------------------------------------------

/// The model of `add_task`: refuse a sixth active task; otherwise
/// create the task under `next_id`, advance `next_id`, and journal a
/// creation entry.
pub open spec fn spec_add_task(m: Model, text: String, status: Status, now: String) -> (
    Model,
    Result<(), CoreError>,
) {
    if status == Status::Active && count_active(m.tasks) >= MAX_ACTIVE {
        (m, Err(CoreError::CapacityExceeded))
    } else {
        let t = Task { id: m.next_id, text: text, status: status, is_focus: false };
        let m1 = Model {
            tasks: m.tasks.push(t),
            logs: m.logs,
            next_id: (m.next_id + 1) as u64,
            snapshots: m.snapshots,
        };
        let e = LogEntry {
            time: now,
            event: Event::TaskCreated,
            task: text,
            task_id: Some(m.next_id),
            prev_status: None,
            prev_text: None,
            prev_focus: None,
            prev_focus_id: None,
        };
        (spec_add_log(m1, e), Ok(()))
    }
}

/// Create a task with the given text and status, stamping the journal
/// with the supplied timestamp.
pub fn add_task_at(data: &mut AppData, text: String, status: Status, now: String) -> (r: Result<
    (),
    CoreError,
>)
    requires
        inv(old(data)@),
        old(data).next_id < u64::MAX,
    ensures
        final(data)@ == spec_add_task(old(data)@, text, status, now).0,
        r == spec_add_task(old(data)@, text, status, now).1,
        inv(final(data)@),
        r is Ok <==> !(status == Status::Active && count_active(old(data)@.tasks) >= MAX_ACTIVE),
        r is Err ==> final(data)@ == old(data)@ && r == Err::<(), CoreError>(
            CoreError::CapacityExceeded,
        ),
        final(data)@.next_id >= old(data)@.next_id,
{
    let ghost m0 = old(data)@;
    if status == Status::Active {
        let ac = count_active_tasks(&data.tasks);
        if ac >= MAX_ACTIVE {
            return Err(CoreError::CapacityExceeded);
        }
    }
    let task_id = data.next_id;
    let task = Task { id: task_id, text: text.clone(), status, is_focus: false };
    data.next_id = data.next_id + 1;
    data.tasks.push(task);
    let ghost m1 = data@;
    proof {
        // the invariant survives the insertion itself
        assert forall|i: int, j: int| 0 <= i < j < m1.tasks.len() implies m1.tasks[i].id
            != m1.tasks[j].id by {
            if j == m1.tasks.len() - 1 {
                assert(m0.tasks[i].id < m0.next_id);
            }
        }
        lemma_count_active_push(m0.tasks, task);
        if status == Status::Active {
            lemma_count_active_bounds(m0.tasks);
        }
        assert(focus_ok(m1.tasks));
        assert(inv(m1));
    }
    let entry = LogEntry {
        time: now,
        event: Event::TaskCreated,
        task: text,
        task_id: Some(task_id),
        prev_status: None,
        prev_text: None,
        prev_focus: None,
        prev_focus_id: None,
    };
    add_log_entry(data, entry);
    proof {
        lemma_add_log_preserves_inv(m1, entry);
        assert(m1 =~= Model {
            tasks: m0.tasks.push(Task { id: m0.next_id, text: text, status: status, is_focus: false }),
            logs: m0.logs,
            next_id: (m0.next_id + 1) as u64,
            snapshots: m0.snapshots,
        });
    }
    Ok(())
}

// ---------------------------------------------------------------------
// move_task
// ---------------------------------------------------------------------

/// The model of `move_task`: refuse an unknown id; refuse activating a
/// parked task beyond capacity; otherwise set the status, unfocus on a
/// move to `Later`, and journal the move with the pre-move status and
/// focus flag.
pub open spec fn spec_move_task(m: Model, id: u64, new_status: Status, now: String) -> (
    Model,
    Result<(), CoreError>,
) {
    let i = task_index(m.tasks, id);
    if i < 0 {
        (m, Err(CoreError::NotFound))
    } else {
        let t = m.tasks[i];
        if new_status == Status::Active && t.status == Status::Later && count_active(m.tasks)
            >= MAX_ACTIVE {
            (m, Err(CoreError::CapacityExceeded))
        } else {
            let t2 = Task {
                id: t.id,
                text: t.text,
                status: new_status,
                is_focus: if new_status == Status::Later {
                    false
                } else {
                    t.is_focus
                },
            };
            let m1 = Model {
                tasks: m.tasks.update(i, t2),
                logs: m.logs,
                next_id: m.next_id,
                snapshots: m.snapshots,
            };
            let ev = if new_status == Status::Active {
                Event::MoveToActive
            } else {
                Event::MoveToLater
            };
            let e = LogEntry {
                time: now,
                event: ev,
                task: t.text,
                task_id: Some(id),
                prev_status: Some(t.status),
                prev_text: None,
                prev_focus: Some(t.is_focus),
                prev_focus_id: None,
            };
            (spec_add_log(m1, e), Ok(()))
        }
    }
}

/// Move a task between `Active` and `Later`, stamping the journal with
/// the supplied timestamp.
pub fn move_task_at(data: &mut AppData, id: u64, new_status: Status, now: String) -> (r: Result<
    (),
    CoreError,
>)
    requires
        inv(old(data)@),
    ensures
        final(data)@ == spec_move_task(old(data)@, id, new_status, now).0,
        r == spec_move_task(old(data)@, id, new_status, now).1,
        inv(final(data)@),
        r is Ok <==> has_task(old(data)@.tasks, id) && !(new_status == Status::Active
            && old(data)@.tasks[task_index(old(data)@.tasks, id)].status == Status::Later
            && count_active(old(data)@.tasks) >= MAX_ACTIVE),
        r is Err ==> final(data)@ == old(data)@,
        final(data)@.next_id == old(data)@.next_id,
{
    let ghost m0 = old(data)@;
    let idx = match find_task(&data.tasks, id) {
        Some(i) => i,
        None => {
            return Err(CoreError::NotFound);
        },
    };
    if new_status == Status::Active && data.tasks[idx].status == Status::Later {
        let ac = count_active_tasks(&data.tasks);
        if ac >= MAX_ACTIVE {
            return Err(CoreError::CapacityExceeded);
        }
    }
    let t = &data.tasks[idx];
    let prev_status = t.status;
    let prev_focus = t.is_focus;
    let task_text = t.text.clone();
    let new_focus = if new_status == Status::Later {
        false
    } else {
        prev_focus
    };
    let t2 = Task { id: t.id, text: t.text.clone(), status: new_status, is_focus: new_focus };
    data.tasks.set(idx, t2);
    let ghost m1 = data@;
    proof {
        let tasks0 = m0.tasks;
        let tasks1 = m1.tasks;
        let gi = idx as int;
        // unique ids, id bound: the id at `gi` is unchanged
        assert forall|i: int, j: int| 0 <= i < j < tasks1.len() implies tasks1[i].id
            != tasks1[j].id by {
            assert(tasks0[i].id != tasks0[j].id);
        }
        // capacity
        lemma_count_active_update(tasks0, gi, tasks1[gi]);
        lemma_count_active_bounds(tasks0);
        // focus: flags only ever go out, except at `gi` where the task
        // stays or becomes active
        assert(focus_ok(tasks1));
        assert(inv(m1));
    }
    let ev = if new_status == Status::Active {
        Event::MoveToActive
    } else {
        Event::MoveToLater
    };
    let entry = LogEntry {
        time: now,
        event: ev,
        task: task_text,
        task_id: Some(id),
        prev_status: Some(prev_status),
        prev_text: None,
        prev_focus: Some(prev_focus),
        prev_focus_id: None,
    };
    add_log_entry(data, entry);
    proof {
        lemma_add_log_preserves_inv(m1, entry);
        assert(data@ =~= spec_move_task(m0, id, new_status, now).0);
    }
    Ok(())
}

/// Move a task, stamped with the current clock.
pub fn move_task(data: &mut AppData, id: u64, new_status: Status) -> (r: Result<(), CoreError>)
    requires
        inv(old(data)@),
    ensures
        exists|now: String|
            final(data)@ == #[trigger] spec_move_task(old(data)@, id, new_status, now).0 && r
                == spec_move_task(old(data)@, id, new_status, now).1,
        inv(final(data)@),
        r is Ok <==> has_task(old(data)@.tasks, id) && !(new_status == Status::Active
            && old(data)@.tasks[task_index(old(data)@.tasks, id)].status == Status::Later
            && count_active(old(data)@.tasks) >= MAX_ACTIVE),
        r is Err ==> final(data)@ == old(data)@,
        final(data)@.next_id == old(data)@.next_id,
{
    let now = clock::get_timestamp();
    let ghost t0 = now;
    let r = move_task_at(data, id, new_status, now);
    proof {
        assert(data@ == spec_move_task(old(data)@, id, new_status, t0).0 && r == spec_move_task(
            old(data)@,
            id,
            new_status,
            t0,
        ).1);
    }
    r
}

// ---------------------------------------------------------------------
// edit_task
// ---------------------------------------------------------------------

/// The model of `edit_task`: refuse an unknown id; otherwise replace
/// the text and journal an edit entry carrying the previous text.
pub open spec fn spec_edit_task(m: Model, id: u64, text: String, now: String) -> (
    Model,
    Result<(), CoreError>,
) {
    let i = task_index(m.tasks, id);
    if i < 0 {
        (m, Err(CoreError::NotFound))
    } else {
        let t = m.tasks[i];
        let t2 = Task { id: t.id, text: text, status: t.status, is_focus: t.is_focus };
        let m1 = Model {
            tasks: m.tasks.update(i, t2),
            logs: m.logs,
            next_id: m.next_id,
            snapshots: m.snapshots,
        };
        let e = LogEntry {
            time: now,
            event: Event::TaskEdited,
            task: text,
            task_id: Some(id),
            prev_status: None,
            prev_text: Some(t.text),
            prev_focus: None,
            prev_focus_id: None,
        };
        (spec_add_log(m1, e), Ok(()))
    }
}

/// Replace a task's text, stamping the journal with the supplied
/// timestamp.
pub fn edit_task_at(data: &mut AppData, id: u64, text: String, now: String) -> (r: Result<
    (),
    CoreError,
>)
    requires
        inv(old(data)@),
    ensures
        final(data)@ == spec_edit_task(old(data)@, id, text, now).0,
        r == spec_edit_task(old(data)@, id, text, now).1,
        inv(final(data)@),
        r is Ok <==> has_task(old(data)@.tasks, id),
        r is Err ==> final(data)@ == old(data)@ && r == Err::<(), CoreError>(CoreError::NotFound),
        final(data)@.next_id == old(data)@.next_id,
{
    let ghost m0 = old(data)@;
    let idx = match find_task(&data.tasks, id) {
        Some(i) => i,
        None => {
            return Err(CoreError::NotFound);
        },
    };
    let t = &data.tasks[idx];
    let prev_text = t.text.clone();
    let t2 = Task { id: t.id, text: text.clone(), status: t.status, is_focus: t.is_focus };
    data.tasks.set(idx, t2);
    let ghost m1 = data@;
    proof {
        let tasks0 = m0.tasks;
        let tasks1 = m1.tasks;
        assert forall|i: int, j: int| 0 <= i < j < tasks1.len() implies tasks1[i].id
            != tasks1[j].id by {
            assert(tasks0[i].id != tasks0[j].id);
        }
        lemma_count_active_pointwise(tasks0, tasks1);
        assert(focus_ok(tasks1));
        assert(inv(m1));
    }
    let entry = LogEntry {
        time: now,
        event: Event::TaskEdited,
        task: text,
        task_id: Some(id),
        prev_status: None,
        prev_text: Some(prev_text),
        prev_focus: None,
        prev_focus_id: None,
    };
    add_log_entry(data, entry);
    proof {
        lemma_add_log_preserves_inv(m1, entry);
        assert(data@ =~= spec_edit_task(m0, id, text, now).0);
    }
    Ok(())
}

/// Replace a task's text, stamped with the current clock.
pub fn edit_task(data: &mut AppData, id: u64, text: String) -> (r: Result<(), CoreError>)
    requires
        inv(old(data)@),
    ensures
        exists|now: String|
            final(data)@ == #[trigger] spec_edit_task(old(data)@, id, text, now).0 && r
                == spec_edit_task(old(data)@, id, text, now).1,
        inv(final(data)@),
        r is Ok <==> has_task(old(data)@.tasks, id),
        r is Err ==> final(data)@ == old(data)@ && r == Err::<(), CoreError>(CoreError::NotFound),
        final(data)@.next_id == old(data)@.next_id,
{
    let now = clock::get_timestamp();
    let ghost t0 = now;
    let r = edit_task_at(data, id, text, now);
    proof {
        assert(data@ == spec_edit_task(old(data)@, id, text, t0).0 && r == spec_edit_task(
            old(data)@,
            id,
            text,
            t0,
        ).1);
    }
    r
}

// ---------------------------------------------------------------------
// set_focus
// ---------------------------------------------------------------------

/// Whether a `set_focus` or `clear_focus` call acts on the journal
/// tail: the tail exists, records a focus switch, and the clock placed
/// it within the merge window.
pub open spec fn tail_merges(m: Model, tail_recent: bool) -> bool {
    m.logs.len() > 0 && m.logs.last().event == Event::SwitchFocus && tail_recent
}

/// The model of `set_focus`: refuse an id that is missing or not
/// active; otherwise focus exactly that task. A recent focus-switch
/// tail entry is rewritten in place, keeping its original
/// `prev_focus_id`; otherwise a fresh entry records the previously
/// focused id.
pub open spec fn spec_set_focus(m: Model, id: u64, now: String, tail_recent: bool) -> (
    Model,
    Result<(), CoreError>,
) {
    let i = task_index(m.tasks, id);
    if i < 0 || m.tasks[i].status != Status::Active {
        (m, Err(CoreError::NotActive))
    } else {
        let prev_focus_id = if focus_index(m.tasks) >= 0 {
            Some(m.tasks[focus_index(m.tasks)].id)
        } else {
            None::<u64>
        };
        let text = m.tasks[i].text;
        let m1 = Model {
            tasks: with_focus_target(m.tasks, Some(id)),
            logs: m.logs,
            next_id: m.next_id,
            snapshots: m.snapshots,
        };
        if tail_merges(m, tail_recent) {
            let e0 = m.logs.last();
            let e1 = LogEntry {
                time: now,
                event: e0.event,
                task: text,
                task_id: Some(id),
                prev_status: e0.prev_status,
                prev_text: e0.prev_text,
                prev_focus: e0.prev_focus,
                prev_focus_id: e0.prev_focus_id,
            };
            (
                Model {
                    tasks: m1.tasks,
                    logs: m.logs.update(m.logs.len() - 1, e1),
                    next_id: m.next_id,
                    snapshots: m.snapshots,
                },
                Ok(()),
            )
        } else {
            let e = LogEntry {
                time: now,
                event: Event::SwitchFocus,
                task: text,
                task_id: Some(id),
                prev_status: None,
                prev_text: None,
                prev_focus: None,
                prev_focus_id: prev_focus_id,
            };
            (spec_add_log(m1, e), Ok(()))
        }
    }
}

/// Focus the given task, with the clock readings supplied: `now` stamps
/// the journal, `tail_recent` is the clock's answer for the tail entry.
pub fn set_focus_at(data: &mut AppData, id: u64, now: String, tail_recent: bool) -> (r: Result<
    (),
    CoreError,
>)
    requires
        inv(old(data)@),
    ensures
        final(data)@ == spec_set_focus(old(data)@, id, now, tail_recent).0,
        r == spec_set_focus(old(data)@, id, now, tail_recent).1,
        inv(final(data)@),
        r is Ok <==> has_task(old(data)@.tasks, id) && old(data)@.tasks[task_index(
            old(data)@.tasks,
            id,
        )].status == Status::Active,
        r is Err ==> final(data)@ == old(data)@ && r == Err::<(), CoreError>(CoreError::NotActive),
        final(data)@.next_id == old(data)@.next_id,
{
    let ghost m0 = old(data)@;
    let idx = match find_task(&data.tasks, id) {
        Some(i) => i,
        None => {
            return Err(CoreError::NotActive);
        },
    };
    if data.tasks[idx].status != Status::Active {
        return Err(CoreError::NotActive);
    }
    let prev_focus_id = match find_focused(&data.tasks) {
        Some(fi) => Some(data.tasks[fi].id),
        None => None,
    };
    let task_text = data.tasks[idx].text.clone();
    apply_focus_target(&mut data.tasks, Some(id));
    let ghost m1 = data@;
    proof {
        let tasks0 = m0.tasks;
        let tasks1 = m1.tasks;
        let gi = idx as int;
        assert forall|i: int, j: int| 0 <= i < j < tasks1.len() implies tasks1[i].id
            != tasks1[j].id by {
            assert(tasks0[i].id != tasks0[j].id);
        }
        lemma_count_active_pointwise(tasks0, tasks1);
        // a focused task carries the target id, and by uniqueness is the
        // checked active one
        assert forall|j: int| 0 <= j < tasks1.len() && #[trigger] tasks1[j].is_focus implies
            tasks1[j].status == Status::Active by {
            if j != gi {
                assert(tasks0[j].id != tasks0[gi].id);
            }
        }
        assert forall|i: int, j: int|
            0 <= i < tasks1.len() && 0 <= j < tasks1.len() && #[trigger] tasks1[i].is_focus
                && #[trigger] tasks1[j].is_focus implies i == j by {
            if i != gi {
                assert(tasks0[i].id != tasks0[gi].id);
            }
            if j != gi {
                assert(tasks0[j].id != tasks0[gi].id);
            }
        }
        assert(inv(m1));
    }
    let li = data.logs.len();
    let merge = if li > 0 {
        if data.logs[li - 1].event == Event::SwitchFocus {
            tail_recent
        } else {
            false
        }
    } else {
        false
    };
    if merge {
        let e0 = &data.logs[li - 1];
        let e1 = LogEntry {
            time: now,
            event: e0.event,
            task: task_text,
            task_id: Some(id),
            prev_status: e0.prev_status,
            prev_text: clone_opt_string(&e0.prev_text),
            prev_focus: e0.prev_focus,
            prev_focus_id: e0.prev_focus_id,
        };
        data.logs.set(li - 1, e1);
        proof {
            assert(data@ =~= spec_set_focus(m0, id, now, tail_recent).0);
        }
    } else {
        let entry = LogEntry {
            time: now,
            event: Event::SwitchFocus,
            task: task_text,
            task_id: Some(id),
            prev_status: None,
            prev_text: None,
            prev_focus: None,
            prev_focus_id,
        };
        add_log_entry(data, entry);
        proof {
            lemma_add_log_preserves_inv(m1, entry);
            assert(data@ =~= spec_set_focus(m0, id, now, tail_recent).0);
        }
    }
    Ok(())
}

/// Focus the given task, with both clock readings taken from the real
/// clock: the timestamp, and whether the tail entry is within
/// `MERGE_WINDOW_SECONDS` of now.
pub fn set_focus(data: &mut AppData, id: u64) -> (r: Result<(), CoreError>)
    requires
        inv(old(data)@),
    ensures
        exists|now: String, recent: bool|
            final(data)@ == #[trigger] spec_set_focus(old(data)@, id, now, recent).0 && r
                == spec_set_focus(old(data)@, id, now, recent).1,
        inv(final(data)@),
        r is Ok <==> has_task(old(data)@.tasks, id) && old(data)@.tasks[task_index(
            old(data)@.tasks,
            id,
        )].status == Status::Active,
        r is Err ==> final(data)@ == old(data)@ && r == Err::<(), CoreError>(CoreError::NotActive),
        final(data)@.next_id == old(data)@.next_id,
{
    let tail_recent = tail_within_window(data);
    let now = clock::get_timestamp();
    let ghost t0 = now;
    let ghost rec = tail_recent;
    let r = set_focus_at(data, id, now, tail_recent);
    proof {
        assert(data@ == spec_set_focus(old(data)@, id, t0, rec).0 && r == spec_set_focus(
            old(data)@,
            id,
            t0,
            rec,
        ).1);
    }
    r
}

/// Ask the clock whether the journal tail lies within the merge window.
fn tail_within_window(data: &AppData) -> bool {
    let li = data.logs.len();
    if li > 0 {
        clock::is_within_seconds(data.logs[li - 1].time.as_str(), crate::state::MERGE_WINDOW_SECONDS)
    } else {
        false
    }
}

// ---------------------------------------------------------------------
// clear_focus
// ---------------------------------------------------------------------

/// The model of `clear_focus`: with no focused task, do nothing; else
/// unfocus every task, and either erase a recent focus-switch tail
/// entry or journal the clear with the unfocused task's id.
pub open spec fn spec_clear_focus(m: Model, now: String, tail_recent: bool) -> Model {
    let fi = focus_index(m.tasks);
    if fi < 0 {
        m
    } else {
        let focused_id = m.tasks[fi].id;
        let focused_text = m.tasks[fi].text;
        let m1 = Model {
            tasks: with_focus_target(m.tasks, None),
            logs: m.logs,
            next_id: m.next_id,
            snapshots: m.snapshots,
        };
        if tail_merges(m, tail_recent) {
            Model {
                tasks: m1.tasks,
                logs: m.logs.drop_last(),
                next_id: m.next_id,
                snapshots: m.snapshots,
            }
        } else {
            let e = LogEntry {
                time: now,
                event: Event::ClearFocus,
                task: focused_text,
                task_id: Some(focused_id),
                prev_status: None,
                prev_text: None,
                prev_focus: Some(true),
                prev_focus_id: None,
            };
            spec_add_log(m1, e)
        }
    }
}

/// Clear the focus, with the clock readings supplied. Clearing an
/// already empty focus changes nothing and journals nothing.
pub fn clear_focus_at(data: &mut AppData, now: String, tail_recent: bool)
    requires
        inv(old(data)@),
    ensures
        final(data)@ == spec_clear_focus(old(data)@, now, tail_recent),
        inv(final(data)@),
        focus_index(old(data)@.tasks) < 0 ==> final(data)@ == old(data)@,
        focus_index(final(data)@.tasks) == -1 || focus_index(old(data)@.tasks) < 0,
        final(data)@.next_id == old(data)@.next_id,
{
    let ghost m0 = old(data)@;
    let fidx = match find_focused(&data.tasks) {
        Some(i) => i,
        None => {
            return ;
        },
    };
    let focused_id = data.tasks[fidx].id;
    let focused_text = data.tasks[fidx].text.clone();
    apply_focus_target(&mut data.tasks, None);
    let ghost m1 = data@;
    proof {
        let tasks0 = m0.tasks;
        let tasks1 = m1.tasks;
        assert forall|i: int, j: int| 0 <= i < j < tasks1.len() implies tasks1[i].id
            != tasks1[j].id by {
            assert(tasks0[i].id != tasks0[j].id);
        }
        lemma_count_active_pointwise(tasks0, tasks1);
        assert(inv(m1));
        lemma_first_index(tasks1, is_focused());
        if focus_index(tasks1) >= 0 {
            assert(is_focused()(tasks1[focus_index(tasks1)]));
        }
    }
    let li = data.logs.len();
    let pop = if li > 0 {
        if data.logs[li - 1].event == Event::SwitchFocus {
            tail_recent
        } else {
            false
        }
    } else {
        false
    };
    if pop {
        data.logs.pop();
        proof {
            assert(data@ =~= spec_clear_focus(m0, now, tail_recent));
        }
    } else {
        let entry = LogEntry {
            time: now,
            event: Event::ClearFocus,
            task: focused_text,
            task_id: Some(focused_id),
            prev_status: None,
            prev_text: None,
            prev_focus: Some(true),
            prev_focus_id: None,
        };
        add_log_entry(data, entry);
        proof {
            lemma_add_log_preserves_inv(m1, entry);
            assert(data@ =~= spec_clear_focus(m0, now, tail_recent));
        }
    }
    proof {
        let tasks2 = data@.tasks;
        lemma_first_index(tasks2, is_focused());
        if focus_index(tasks2) >= 0 {
            assert(is_focused()(tasks2[focus_index(tasks2)]));
        }
    }
}

/// Clear the focus, with both clock readings taken from the real clock.
pub fn clear_focus(data: &mut AppData)
    requires
        inv(old(data)@),
    ensures
        exists|now: String, recent: bool|
            final(data)@ == #[trigger] spec_clear_focus(old(data)@, now, recent),
        inv(final(data)@),
        focus_index(old(data)@.tasks) < 0 ==> final(data)@ == old(data)@,
        focus_index(final(data)@.tasks) == -1 || focus_index(old(data)@.tasks) < 0,
        final(data)@.next_id == old(data)@.next_id,
{
    let tail_recent = tail_within_window(data);
    let now = clock::get_timestamp();
    let ghost t0 = now;
    let ghost rec = tail_recent;
    clear_focus_at(data, now, tail_recent);
    proof {
        assert(data@ == spec_clear_focus(old(data)@, t0, rec));
    }
}

// ---------------------------------------------------------------------
// complete_task / delete_task
// ---------------------------------------------------------------------

/// The shared model of `complete_task` and `delete_task`: refuse an
/// unknown id; otherwise journal the removal with every field its
/// inverse needs, remove the task, and if it held focus promote the
/// first remaining active task, journalling a separate plain
/// focus-switch entry.
pub open spec fn spec_remove_task(m: Model, id: u64, now: String, ev: Event) -> (
    Model,
    Result<(), CoreError>,
) {
    let i = task_index(m.tasks, id);
    if i < 0 {
        (m, Err(CoreError::NotFound))
    } else {
        let t = m.tasks[i];
        let e = LogEntry {
            time: now,
            event: ev,
            task: t.text,
            task_id: Some(id),
            prev_status: Some(t.status),
            prev_text: Some(t.text),
            prev_focus: Some(t.is_focus),
            prev_focus_id: None,
        };
        let ma = spec_add_log(m, e);
        let mb = Model {
            tasks: ma.tasks.remove(i),
            logs: ma.logs,
            next_id: ma.next_id,
            snapshots: ma.snapshots,
        };
        if t.is_focus {
            let j = first_active_index(mb.tasks);
            if j >= 0 {
                let u = mb.tasks[j];
                let u2 = Task { id: u.id, text: u.text, status: u.status, is_focus: true };
                let mc = Model {
                    tasks: mb.tasks.update(j, u2),
                    logs: mb.logs,
                    next_id: mb.next_id,
                    snapshots: mb.snapshots,
                };
                let e2 = LogEntry {
                    time: now,
                    event: Event::SwitchFocus,
                    task: u.text,
                    task_id: None,
                    prev_status: None,
                    prev_text: None,
                    prev_focus: None,
                    prev_focus_id: None,
                };
                (spec_add_log(mc, e2), Ok(()))
            } else {
                (mb, Ok(()))
            }
        } else {
            (mb, Ok(()))
        }
    }
}

/// Remove the task with the given id, journalling under `ev`.
fn remove_task_at(data: &mut AppData, id: u64, now: String, ev: Event) -> (r: Result<
    (),
    CoreError,
>)
    requires
        inv(old(data)@),
    ensures
        final(data)@ == spec_remove_task(old(data)@, id, now, ev).0,
        r == spec_remove_task(old(data)@, id, now, ev).1,
        inv(final(data)@),
        r is Ok <==> has_task(old(data)@.tasks, id),
        r is Err ==> final(data)@ == old(data)@ && r == Err::<(), CoreError>(CoreError::NotFound),
        final(data)@.next_id == old(data)@.next_id,
{
    let ghost m0 = old(data)@;
    let idx = match find_task(&data.tasks, id) {
        Some(i) => i,
        None => {
            return Err(CoreError::NotFound);
        },
    };
    let t = &data.tasks[idx];
    let was_focused = t.is_focus;
    let prev_status = t.status;
    let text = t.text.clone();
    let entry = LogEntry {
        time: now.clone(),
        event: ev,
        task: text.clone(),
        task_id: Some(id),
        prev_status: Some(prev_status),
        prev_text: Some(text),
        prev_focus: Some(was_focused),
        prev_focus_id: None,
    };
    add_log_entry(data, entry);
    let ghost ma = data@;
    data.tasks.remove(idx);
    let ghost mb = data@;
    proof {
        let gi = idx as int;
        let tasks0 = m0.tasks;
        let tasksb = mb.tasks;
        assert forall|i: int, j: int| 0 <= i < j < tasksb.len() implies tasksb[i].id
            != tasksb[j].id by {
            let i0 = if i < gi { i } else { i + 1 };
            let j0 = if j < gi { j } else { j + 1 };
            assert(tasksb[i] == tasks0[i0]);
            assert(tasksb[j] == tasks0[j0]);
            assert(tasks0[i0].id != tasks0[j0].id);
        }
        assert forall|i: int| 0 <= i < tasksb.len() implies #[trigger] tasksb[i].id
            < mb.next_id by {
            let i0 = if i < gi { i } else { i + 1 };
            assert(tasksb[i] == tasks0[i0]);
        }
        lemma_count_active_remove(tasks0, gi);
        lemma_count_active_bounds(tasksb);
        assert forall|i: int, j: int|
            0 <= i < tasksb.len() && 0 <= j < tasksb.len() && #[trigger] tasksb[i].is_focus
                && #[trigger] tasksb[j].is_focus implies i == j by {
            let i0 = if i < gi { i } else { i + 1 };
            let j0 = if j < gi { j } else { j + 1 };
            assert(tasksb[i] == tasks0[i0]);
            assert(tasksb[j] == tasks0[j0]);
        }
        assert forall|i: int| 0 <= i < tasksb.len() && #[trigger] tasksb[i].is_focus implies
            tasksb[i].status == Status::Active by {
            let i0 = if i < gi { i } else { i + 1 };
            assert(tasksb[i] == tasks0[i0]);
        }
        assert(inv(mb));
        if was_focused {
            // the removed task held the only focus, so none remains
            assert forall|i: int| 0 <= i < tasksb.len() implies !(#[trigger] tasksb[i].is_focus) by {
                let i0 = if i < gi { i } else { i + 1 };
                assert(tasksb[i] == tasks0[i0]);
                if tasks0[i0].is_focus {
                    assert(tasks0[gi].is_focus);
                }
            }
        }
    }
    if was_focused {
        match find_first_active(&data.tasks) {
            Some(j) => {
                let u = &data.tasks[j];
                let next_text = u.text.clone();
                let u2 = Task { id: u.id, text: u.text.clone(), status: u.status, is_focus: true };
                data.tasks.set(j, u2);
                let ghost mc = data@;
                proof {
                    let gj = j as int;
                    let tasksb = mb.tasks;
                    let tasksc = mc.tasks;
                    assert forall|i: int, k: int| 0 <= i < k < tasksc.len() implies tasksc[i].id
                        != tasksc[k].id by {
                        assert(tasksb[i].id != tasksb[k].id);
                    }
                    lemma_count_active_pointwise(tasksb, tasksc);
                    assert(inv(mc));
                }
                let entry2 = LogEntry {
                    time: now,
                    event: Event::SwitchFocus,
                    task: next_text,
                    task_id: None,
                    prev_status: None,
                    prev_text: None,
                    prev_focus: None,
                    prev_focus_id: None,
                };
                add_log_entry(data, entry2);
                proof {
                    lemma_add_log_preserves_inv(mc, entry2);
                    assert(data@ =~= spec_remove_task(m0, id, now, ev).0);
                }
            },
            None => {
                proof {
                    assert(data@ =~= spec_remove_task(m0, id, now, ev).0);
                }
            },
        }
    } else {
        proof {
            assert(data@ =~= spec_remove_task(m0, id, now, ev).0);
        }
    }
    Ok(())
}

/// Complete a task: journal `TaskDone`, remove it, and cascade focus,
/// stamping the journal with the supplied timestamp.
pub fn complete_task_at(data: &mut AppData, id: u64, now: String) -> (r: Result<(), CoreError>)
    requires
        inv(old(data)@),
    ensures
        final(data)@ == spec_remove_task(old(data)@, id, now, Event::TaskDone).0,
        r == spec_remove_task(old(data)@, id, now, Event::TaskDone).1,
        inv(final(data)@),
        r is Ok <==> has_task(old(data)@.tasks, id),
        r is Err ==> final(data)@ == old(data)@ && r == Err::<(), CoreError>(CoreError::NotFound),
        final(data)@.next_id == old(data)@.next_id,
{
    remove_task_at(data, id, now, Event::TaskDone)
}

/// Delete a task: journal `TaskDeleted`, remove it, and cascade focus,
/// stamping the journal with the supplied timestamp.
pub fn delete_task_at(data: &mut AppData, id: u64, now: String) -> (r: Result<(), CoreError>)
    requires
        inv(old(data)@),
    ensures
        final(data)@ == spec_remove_task(old(data)@, id, now, Event::TaskDeleted).0,
        r == spec_remove_task(old(data)@, id, now, Event::TaskDeleted).1,
        inv(final(data)@),
        r is Ok <==> has_task(old(data)@.tasks, id),
        r is Err ==> final(data)@ == old(data)@ && r == Err::<(), CoreError>(CoreError::NotFound),
        final(data)@.next_id == old(data)@.next_id,
{
    remove_task_at(data, id, now, Event::TaskDeleted)
}

/// Complete a task, stamped with the current clock.
pub fn complete_task(data: &mut AppData, id: u64) -> (r: Result<(), CoreError>)
    requires
        inv(old(data)@),
    ensures
        exists|now: String|
            final(data)@ == #[trigger] spec_remove_task(old(data)@, id, now, Event::TaskDone).0
                && r == spec_remove_task(old(data)@, id, now, Event::TaskDone).1,
        inv(final(data)@),
        r is Ok <==> has_task(old(data)@.tasks, id),
        r is Err ==> final(data)@ == old(data)@ && r == Err::<(), CoreError>(CoreError::NotFound),
        final(data)@.next_id == old(data)@.next_id,
{
    let now = clock::get_timestamp();
    let ghost t0 = now;
    let r = complete_task_at(data, id, now);
    proof {
        assert(data@ == spec_remove_task(old(data)@, id, t0, Event::TaskDone).0 && r
            == spec_remove_task(old(data)@, id, t0, Event::TaskDone).1);
    }
    r
}

/// Delete a task, stamped with the current clock.
pub fn delete_task(data: &mut AppData, id: u64) -> (r: Result<(), CoreError>)
    requires
        inv(old(data)@),
    ensures
        exists|now: String|
            final(data)@ == #[trigger] spec_remove_task(old(data)@, id, now, Event::TaskDeleted).0
                && r == spec_remove_task(old(data)@, id, now, Event::TaskDeleted).1,
        inv(final(data)@),
        r is Ok <==> has_task(old(data)@.tasks, id),
        r is Err ==> final(data)@ == old(data)@ && r == Err::<(), CoreError>(CoreError::NotFound),
        final(data)@.next_id == old(data)@.next_id,
{
    let now = clock::get_timestamp();
    let ghost t0 = now;
    let r = delete_task_at(data, id, now);
    proof {
        assert(data@ == spec_remove_task(old(data)@, id, t0, Event::TaskDeleted).0 && r
            == spec_remove_task(old(data)@, id, t0, Event::TaskDeleted).1);
    }
    r
}

// ---------------------------------------------------------------------
// clear_logs / load_data
// ---------------------------------------------------------------------

/// The model of `clear_logs`: empty the journal and the snapshots,
/// leaving the tasks untouched.
pub open spec fn spec_clear_logs(m: Model) -> Model {
    Model {
        tasks: m.tasks,
        logs: Seq::empty(),
        next_id: m.next_id,
        snapshots: Seq::empty(),
    }
}

/// Empty the journal and the snapshots unconditionally.
pub fn clear_logs(data: &mut AppData)
    ensures
        final(data)@ == spec_clear_logs(old(data)@),
        inv(old(data)@) ==> inv(final(data)@),
        final(data)@.tasks == old(data)@.tasks,
{
    data.logs.clear();
    data.snapshots.clear();
    proof {
        assert(data@ =~= spec_clear_logs(old(data)@));
    }
}

/// A full copy of the state, so callers never hold references into it.
pub fn load_data(data: &AppData) -> (r: AppData)
    ensures
        r@ == data@,
{
    let r = AppData {
        tasks: clone_tasks(&data.tasks),
        logs: clone_logs(&data.logs),
        next_id: data.next_id,
        snapshots: clone_snapshots(&data.snapshots),
    };
    proof {
        assert(r@ =~= data@);
    }
    r
}

/// Create a task, stamped with the current clock.
pub fn add_task(data: &mut AppData, text: String, status: Status) -> (r: Result<(), CoreError>)
    requires
        inv(old(data)@),
        old(data).next_id < u64::MAX,
    ensures
        exists|now: String|
            final(data)@ == #[trigger] spec_add_task(old(data)@, text, status, now).0 && r
                == spec_add_task(old(data)@, text, status, now).1,
        inv(final(data)@),
        r is Ok <==> !(status == Status::Active && count_active(old(data)@.tasks) >= MAX_ACTIVE),
        r is Err ==> final(data)@ == old(data)@ && r == Err::<(), CoreError>(
            CoreError::CapacityExceeded,
        ),
        final(data)@.next_id >= old(data)@.next_id,
{
    let now = clock::get_timestamp();
    let ghost t0 = now;
    let r = add_task_at(data, text, status, now);
    proof {
        assert(data@ == spec_add_task(old(data)@, text, status, t0).0 && r == spec_add_task(
            old(data)@,
            text,
            status,
            t0,
        ).1);
    }
    r
}

} // verus!
