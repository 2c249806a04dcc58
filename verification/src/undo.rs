//! Single-step undo. The journal tail is popped and its event
//! dispatched to the exact inverse of the command that wrote it; the
//! tail removal itself is the only bookkeeping. Unknown events are
//! no-ops, so journals written by other versions stay harmless.

use vstd::prelude::*;
use vstd::pervasive::VecAdditionalExecFns;

use crate::commands::{
    find_task, apply_focus_target,
};
use crate::state::{
    count_active, has_task, inv, is_id, lemma_count_active_bounds,
    lemma_count_active_pointwise, lemma_count_active_push, lemma_count_active_remove,
    lemma_count_active_update, lemma_first_index, task_index, tasks_ok, unfocus_except,
    with_focus_target, with_others_unfocused, AppData, CoreError, Event, LogEntry, Model,
    Status, Task, MAX_ACTIVE,
};

verus! {

/// The task set with every task of the given id removed, as far as one
/// exists; ids are unique under the invariant, so at most one does.
pub open spec fn remove_by_id(tasks: Seq<Task>, id: u64) -> Seq<Task> {
    let i = task_index(tasks, id);
    if i >= 0 {
        tasks.remove(i)
    } else {
        tasks
    }
}

/// The focus flag a reinserted task gets back: the journalled pre-event
/// flag, absent meaning unfocused.
pub open spec fn restored_focus(e: LogEntry) -> bool {
    e.prev_focus == Some(true)
}

/// The inverse of one journal entry, applied to the task set.
pub open spec fn spec_undo_tasks(tasks: Seq<Task>, e: LogEntry) -> Seq<Task> {
    match e.event {
        Event::TaskCreated => match e.task_id {
            Some(id) => remove_by_id(tasks, id),
            None => tasks,
        },
        Event::TaskDeleted | Event::TaskDone => match (e.task_id, e.prev_status, e.prev_text) {
            (Some(id), Some(st), Some(tx)) => {
                let was = restored_focus(e);
                let t2 = tasks.push(Task { id, text: tx, status: st, is_focus: was });
                if was {
                    with_others_unfocused(t2, id)
                } else {
                    t2
                }
            },
            _ => tasks,
        },
        Event::MoveToActive | Event::MoveToLater => match (e.task_id, e.prev_status) {
            (Some(id), Some(ps)) => {
                let i = task_index(tasks, id);
                if i >= 0 {
                    let t = tasks[i];
                    let nf = match e.prev_focus {
                        Some(b) => b,
                        None => t.is_focus,
                    };
                    tasks.update(i, Task { id: t.id, text: t.text, status: ps, is_focus: nf })
                } else {
                    tasks
                }
            },
            _ => tasks,
        },
        Event::TaskEdited => match (e.task_id, e.prev_text) {
            (Some(id), Some(tx)) => {
                let i = task_index(tasks, id);
                if i >= 0 {
                    let t = tasks[i];
                    tasks.update(i, Task { id: t.id, text: tx, status: t.status, is_focus: t.is_focus })
                } else {
                    tasks
                }
            },
            _ => tasks,
        },
        Event::SwitchFocus => with_focus_target(tasks, e.prev_focus_id),
        Event::ClearFocus => match e.task_id {
            Some(id) => with_focus_target(tasks, Some(id)),
            None => tasks,
        },
        Event::Unknown => tasks,
    }
}

/// The model of `undo_action`: refuse an empty journal; otherwise pop
/// the tail entry and apply its inverse to the tasks. Neither `next_id`
/// nor the snapshots are rolled back.
pub open spec fn spec_undo(m: Model) -> (Model, Result<(), CoreError>) {
    if m.logs.len() == 0 {
        (m, Err(CoreError::NothingToUndo))
    } else {
        let e = m.logs.last();
        (
            Model {
                tasks: spec_undo_tasks(m.tasks, e),
                logs: m.logs.drop_last(),
                next_id: m.next_id,
                snapshots: m.snapshots,
            },
            Ok(()),
        )
    }
}

/// What the journal tail must satisfy, relative to the current state,
/// for its inverse to land back inside the invariant. Every entry the
/// commands themselves write satisfies this.
pub open spec fn undo_entry_ok(m: Model, e: LogEntry) -> bool {
    match e.event {
        Event::TaskDeleted | Event::TaskDone => match (e.task_id, e.prev_status, e.prev_text) {
            (Some(id), Some(st), Some(tx)) => {
                &&& !has_task(m.tasks, id)
                &&& id < m.next_id
                &&& (st == Status::Active ==> count_active(m.tasks) < MAX_ACTIVE)
                &&& (restored_focus(e) ==> st == Status::Active)
            },
            _ => true,
        },
        Event::MoveToActive | Event::MoveToLater => match (e.task_id, e.prev_status) {
            (Some(id), Some(ps)) => {
                let i = task_index(m.tasks, id);
                i >= 0 ==> {
                    let t = m.tasks[i];
                    let nf = match e.prev_focus {
                        Some(b) => b,
                        None => t.is_focus,
                    };
                    &&& (ps == Status::Active && t.status == Status::Later ==> count_active(m.tasks)
                        < MAX_ACTIVE)
                    &&& (nf ==> ps == Status::Active && (forall|j: int|
                        0 <= j < m.tasks.len() && j != i ==> !(#[trigger] m.tasks[j].is_focus)))
                }
            },
            _ => true,
        },
        Event::SwitchFocus => match e.prev_focus_id {
            Some(pid) => forall|j: int|
                0 <= j < m.tasks.len() && #[trigger] m.tasks[j].id == pid ==> m.tasks[j].status
                    == Status::Active,
            None => true,
        },
        Event::ClearFocus => match e.task_id {
            Some(id) => forall|j: int|
                0 <= j < m.tasks.len() && #[trigger] m.tasks[j].id == id ==> m.tasks[j].status
                    == Status::Active,
            None => true,
        },
        _ => true,
    }
}

/// The journal tail, if any, can be undone without leaving the
/// invariant.
pub open spec fn undo_tail_ok(m: Model) -> bool {
    m.logs.len() > 0 ==> undo_entry_ok(m, m.logs.last())
}

/// Undo preserves the invariant whenever the tail entry is consistent
/// with the state, as every entry written by the commands is.
pub proof fn lemma_undo_preserves_inv(m: Model)
    requires
        inv(m),
        undo_tail_ok(m),
    ensures
        inv(spec_undo(m).0),
{
    if m.logs.len() == 0 {
        return ;
    }
    let e = m.logs.last();
    let tasks0 = m.tasks;
    let tasks2 = spec_undo_tasks(tasks0, e);
    match e.event {
        Event::TaskCreated => {
            if e.task_id is Some {
                let id = e.task_id->0;
                let i = task_index(tasks0, id);
                lemma_first_index(tasks0, is_id(id));
                if i >= 0 {
                    lemma_tasks_ok_remove(tasks0, m.next_id, i);
                }
            }
        },
        Event::TaskDeleted | Event::TaskDone => {
            if e.task_id is Some && e.prev_status is Some && e.prev_text is Some {
                let id = e.task_id->0;
                let st = e.prev_status->0;
                let tx = e.prev_text->0;
                let was = restored_focus(e);
                let t = Task { id, text: tx, status: st, is_focus: was };
                let t2 = tasks0.push(t);
                lemma_first_index(tasks0, is_id(id));
                assert forall|j: int| 0 <= j < tasks0.len() implies #[trigger] tasks0[j].id
                    != id by {
                    assert(!is_id(id)(tasks0[j]));
                }
                lemma_count_active_push(tasks0, t);
                if was {
                    let t3 = with_others_unfocused(t2, id);
                    assert(t3.len() == t2.len());
                    assert forall|j: int| 0 <= j < t2.len() implies #[trigger] t3[j]
                        == unfocus_except(t2[j], id) by {}
                    lemma_count_active_pointwise(t2, t3);
                    assert(t3[t2.len() - 1] == t);
                    assert(tasks_ok(t3, m.next_id));
                } else {
                    assert(tasks_ok(t2, m.next_id));
                }
            }
        },
        Event::MoveToActive | Event::MoveToLater => {
            if e.task_id is Some && e.prev_status is Some {
                let id = e.task_id->0;
                let ps = e.prev_status->0;
                let i = task_index(tasks0, id);
                lemma_first_index(tasks0, is_id(id));
                if i >= 0 {
                    let t = tasks0[i];
                    let nf = match e.prev_focus {
                        Some(b) => b,
                        None => t.is_focus,
                    };
                    let t2 = Task { id: t.id, text: t.text, status: ps, is_focus: nf };
                    lemma_count_active_update(tasks0, i, t2);
                    assert(tasks_ok(tasks0.update(i, t2), m.next_id));
                }
            }
        },
        Event::TaskEdited => {
            if e.task_id is Some && e.prev_text is Some {
                let id = e.task_id->0;
                let i = task_index(tasks0, id);
                lemma_first_index(tasks0, is_id(id));
                if i >= 0 {
                    let t = tasks0[i];
                    let t2 = Task { id: t.id, text: e.prev_text->0, status: t.status, is_focus: t.is_focus };
                    lemma_count_active_pointwise(tasks0, tasks0.update(i, t2));
                    assert(tasks_ok(tasks0.update(i, t2), m.next_id));
                }
            }
        },
        Event::SwitchFocus => {
            lemma_tasks_ok_focus_target(tasks0, m.next_id, e.prev_focus_id);
        },
        Event::ClearFocus => {
            if e.task_id is Some {
                lemma_tasks_ok_focus_target(tasks0, m.next_id, Some(e.task_id->0));
            }
        },
        Event::Unknown => {},
    }
}

/// Removing one task keeps the task-set invariant.
pub proof fn lemma_tasks_ok_remove(tasks: Seq<Task>, next_id: u64, i: int)
    requires
        tasks_ok(tasks, next_id),
        0 <= i < tasks.len(),
    ensures
        tasks_ok(tasks.remove(i), next_id),
{
    let t2 = tasks.remove(i);
    assert forall|a: int, b: int| 0 <= a < b < t2.len() implies t2[a].id != t2[b].id by {
        let a0 = if a < i { a } else { a + 1 };
        let b0 = if b < i { b } else { b + 1 };
        assert(t2[a] == tasks[a0]);
        assert(t2[b] == tasks[b0]);
        assert(tasks[a0].id != tasks[b0].id);
    }
    assert forall|a: int| 0 <= a < t2.len() implies #[trigger] t2[a].id < next_id by {
        let a0 = if a < i { a } else { a + 1 };
        assert(t2[a] == tasks[a0]);
    }
    lemma_count_active_remove(tasks, i);
    lemma_count_active_bounds(tasks);
    assert forall|a: int, b: int|
        0 <= a < t2.len() && 0 <= b < t2.len() && #[trigger] t2[a].is_focus
            && #[trigger] t2[b].is_focus implies a == b by {
        let a0 = if a < i { a } else { a + 1 };
        let b0 = if b < i { b } else { b + 1 };
        assert(t2[a] == tasks[a0]);
        assert(t2[b] == tasks[b0]);
    }
    assert forall|a: int| 0 <= a < t2.len() && #[trigger] t2[a].is_focus implies t2[a].status
        == Status::Active by {
        let a0 = if a < i { a } else { a + 1 };
        assert(t2[a] == tasks[a0]);
    }
}

/// Rewriting the focus flags towards a target id keeps the task-set
/// invariant, as long as every task carrying that id is active.
pub proof fn lemma_tasks_ok_focus_target(tasks: Seq<Task>, next_id: u64, target: Option<u64>)
    requires
        tasks_ok(tasks, next_id),
        target is Some ==> forall|j: int|
            0 <= j < tasks.len() && #[trigger] tasks[j].id == target->0 ==> tasks[j].status
                == Status::Active,
    ensures
        tasks_ok(with_focus_target(tasks, target), next_id),
{
    let t2 = with_focus_target(tasks, target);
    lemma_count_active_pointwise(tasks, t2);
    assert forall|a: int, b: int|
        0 <= a < t2.len() && 0 <= b < t2.len() && #[trigger] t2[a].is_focus
            && #[trigger] t2[b].is_focus implies a == b by {
        assert(tasks[a].id == target->0);
        assert(tasks[b].id == target->0);
        if a < b {
            assert(tasks[a].id != tasks[b].id);
        }
        if b < a {
            assert(tasks[a].id != tasks[b].id);
        }
    }
}

/// Undo the most recent journalled mutation.
pub fn undo_action(data: &mut AppData) -> (r: Result<(), CoreError>)
    ensures
        final(data)@ == spec_undo(old(data)@).0,
        r == spec_undo(old(data)@).1,
        r is Ok <==> old(data)@.logs.len() > 0,
        r is Err ==> final(data)@ == old(data)@ && r == Err::<(), CoreError>(
            CoreError::NothingToUndo,
        ),
        inv(old(data)@) && undo_tail_ok(old(data)@) ==> inv(final(data)@),
        final(data)@.next_id == old(data)@.next_id,
{
    let ghost m0 = old(data)@;
    if data.logs.len() == 0 {
        return Err(CoreError::NothingToUndo);
    }
    let e = match data.logs.pop() {
        Some(x) => x,
        None => unreached(),
    };
    proof {
        assert(e == m0.logs.last());
        assert(data@.logs =~= m0.logs.drop_last());
    }
    match e.event {
        Event::TaskCreated => {
            if let Some(id) = e.task_id {
                if let Some(i) = find_task(&data.tasks, id) {
                    data.tasks.remove(i);
                }
            }
        },
        Event::TaskDeleted | Event::TaskDone => {
            if let (Some(id), Some(st), Some(tx)) = (e.task_id, e.prev_status, e.prev_text) {
                let was = match e.prev_focus {
                    Some(true) => true,
                    _ => false,
                };
                data.tasks.push(Task { id, text: tx, status: st, is_focus: was });
                if was {
                    apply_unfocus_except(&mut data.tasks, id);
                }
            }
        },
        Event::MoveToActive | Event::MoveToLater => {
            if let (Some(id), Some(ps)) = (e.task_id, e.prev_status) {
                if let Some(i) = find_task(&data.tasks, id) {
                    let t = &data.tasks[i];
                    let nf = match e.prev_focus {
                        Some(b) => b,
                        None => t.is_focus,
                    };
                    let t2 = Task { id: t.id, text: t.text.clone(), status: ps, is_focus: nf };
                    data.tasks.set(i, t2);
                }
            }
        },
        Event::TaskEdited => {
            if let (Some(id), Some(tx)) = (e.task_id, e.prev_text) {
                if let Some(i) = find_task(&data.tasks, id) {
                    let t = &data.tasks[i];
                    let t2 = Task { id: t.id, text: tx, status: t.status, is_focus: t.is_focus };
                    data.tasks.set(i, t2);
                }
            }
        },
        Event::SwitchFocus => {
            apply_focus_target(&mut data.tasks, e.prev_focus_id);
        },
        Event::ClearFocus => {
            if let Some(id) = e.task_id {
                apply_focus_target(&mut data.tasks, Some(id));
            }
        },
        Event::Unknown => {},
    }
    proof {
        assert(data@.tasks =~= spec_undo_tasks(m0.tasks, m0.logs.last()));
        assert(data@ =~= spec_undo(m0).0);
        if inv(m0) && undo_tail_ok(m0) {
            lemma_undo_preserves_inv(m0);
        }
    }
    Ok(())
}

/// Clear the focus flag of every task other than the one to keep.
pub fn apply_unfocus_except(tasks: &mut Vec<Task>, keep: u64)
    ensures
        final(tasks)@ == with_others_unfocused(old(tasks)@, keep),
{
    let n = tasks.len();
    let mut i: usize = 0;
    while i < n
        invariant
            i <= n,
            n == tasks.len(),
            tasks@.len() == old(tasks)@.len(),
            forall|j: int| i <= j < n ==> #[trigger] tasks@[j] == old(tasks)@[j],
            forall|j: int| 0 <= j < i ==> #[trigger] tasks@[j] == unfocus_except(
                old(tasks)@[j],
                keep,
            ),
        decreases n - i,
    {
        if tasks[i].id != keep {
            let t = &tasks[i];
            let t2 = Task { id: t.id, text: t.text.clone(), status: t.status, is_focus: false };
            tasks.set(i, t2);
        }
        i += 1;
    }
    proof {
        assert(tasks@ =~= with_others_unfocused(old(tasks)@, keep));
    }
}

} // verus!
