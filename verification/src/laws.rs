//! Laws of the command surface, proved once and for all over the spec
//! transitions: each successful command is inverted by a single undo
//! (the creation command leaves `next_id` advanced, removal commands
//! restore the task at the end of the order), a removal of the focused
//! task takes two undos, clearing an empty focus is a no-op, and focus
//! switches within the merge window never grow the journal.

use vstd::prelude::*;

use crate::commands::{
    spec_add_task, spec_clear_focus, spec_move_task, spec_edit_task, spec_remove_task,
    spec_set_focus, tail_merges,
};
use crate::journal::spec_add_log;
use crate::state::{
    first_active_index, focus_applied, focus_index, has_task, inv, is_active, is_focused,
    is_id, lemma_first_index, lemma_first_index_at, task_index, unfocus_except,
    with_focus_target, with_others_unfocused, Event, LogEntry, Model, Status, Task,
};
use crate::undo::{
    restored_focus, spec_undo, spec_undo_tasks,
};

verus! {

/// A successful `add_task` followed by one undo restores the task set
/// and the journal; only `next_id` stays advanced.
pub proof fn lemma_undo_add_task(m: Model, text: String, status: Status, now: String)
    requires
        inv(m),
        spec_add_task(m, text, status, now).1 is Ok,
    ensures
        ({
            let m1 = spec_add_task(m, text, status, now).0;
            let (m2, r2) = spec_undo(m1);
            &&& r2 is Ok
            &&& m2.tasks == m.tasks
            &&& m2.logs == m.logs
            &&& m2.next_id == m1.next_id
        }),
{
    let t = Task { id: m.next_id, text: text, status: status, is_focus: false };
    let tasks1 = m.tasks.push(t);
    let m1 = spec_add_task(m, text, status, now).0;
    assert(m1.logs.last().event == Event::TaskCreated);
    assert(m1.logs.drop_last() =~= m.logs);
    let n = m.tasks.len() as int;
    assert(is_id(m.next_id)(tasks1[n]));
    assert forall|j: int| 0 <= j < n implies !is_id(m.next_id)(tasks1[j]) by {
        assert(tasks1[j] == m.tasks[j]);
        assert(m.tasks[j].id < m.next_id);
    }
    lemma_first_index_at(tasks1, is_id(m.next_id), n);
    assert(tasks1.remove(n) =~= m.tasks);
}

/// A successful `move_task` followed by one undo restores the task set
/// and the journal.
pub proof fn lemma_undo_move_task(m: Model, id: u64, new_status: Status, now: String)
    requires
        inv(m),
        spec_move_task(m, id, new_status, now).1 is Ok,
    ensures
        ({
            let m1 = spec_move_task(m, id, new_status, now).0;
            let (m2, r2) = spec_undo(m1);
            &&& r2 is Ok
            &&& m2.tasks == m.tasks
            &&& m2.logs == m.logs
            &&& m2.next_id == m.next_id
        }),
{
    let i = task_index(m.tasks, id);
    lemma_first_index(m.tasks, is_id(id));
    let t = m.tasks[i];
    assert(t.id == id);
    let nf = if new_status == Status::Later {
        false
    } else {
        t.is_focus
    };
    let t2 = Task { id: t.id, text: t.text, status: new_status, is_focus: nf };
    let tasks1 = m.tasks.update(i, t2);
    let m1 = spec_move_task(m, id, new_status, now).0;
    assert(m1.logs.drop_last() =~= m.logs);
    assert(is_id(id)(tasks1[i]));
    assert forall|j: int| 0 <= j < i implies !is_id(id)(tasks1[j]) by {
        assert(tasks1[j] == m.tasks[j]);
    }
    lemma_first_index_at(tasks1, is_id(id), i);
    let e = m1.logs.last();
    assert(e.prev_focus == Some(t.is_focus));
    assert(Task { id: t2.id, text: t2.text, status: t.status, is_focus: t.is_focus } == t);
    assert(tasks1.update(i, t) =~= m.tasks);
}

/// A successful `edit_task` followed by one undo restores the task set
/// and the journal.
pub proof fn lemma_undo_edit_task(m: Model, id: u64, text: String, now: String)
    requires
        inv(m),
        spec_edit_task(m, id, text, now).1 is Ok,
    ensures
        ({
            let m1 = spec_edit_task(m, id, text, now).0;
            let (m2, r2) = spec_undo(m1);
            &&& r2 is Ok
            &&& m2.tasks == m.tasks
            &&& m2.logs == m.logs
            &&& m2.next_id == m.next_id
        }),
{
    let i = task_index(m.tasks, id);
    lemma_first_index(m.tasks, is_id(id));
    let t = m.tasks[i];
    let t2 = Task { id: t.id, text: text, status: t.status, is_focus: t.is_focus };
    let tasks1 = m.tasks.update(i, t2);
    let m1 = spec_edit_task(m, id, text, now).0;
    assert(m1.logs.drop_last() =~= m.logs);
    assert(is_id(id)(tasks1[i]));
    assert forall|j: int| 0 <= j < i implies !is_id(id)(tasks1[j]) by {
        assert(tasks1[j] == m.tasks[j]);
    }
    lemma_first_index_at(tasks1, is_id(id), i);
    assert(Task { id: t2.id, text: t.text, status: t2.status, is_focus: t2.is_focus } == t);
    assert(tasks1.update(i, t) =~= m.tasks);
}

/// A successful `set_focus` that appended a fresh journal entry,
/// followed by one undo, restores the task set and the journal. A
/// merged entry instead rolls back to the focus that began the episode.
pub proof fn lemma_undo_set_focus(m: Model, id: u64, now: String, tail_recent: bool)
    requires
        inv(m),
        spec_set_focus(m, id, now, tail_recent).1 is Ok,
        !tail_merges(m, tail_recent),
    ensures
        ({
            let m1 = spec_set_focus(m, id, now, tail_recent).0;
            let (m2, r2) = spec_undo(m1);
            &&& r2 is Ok
            &&& m2.tasks == m.tasks
            &&& m2.logs == m.logs
            &&& m2.next_id == m.next_id
        }),
{
    let i = task_index(m.tasks, id);
    lemma_first_index(m.tasks, is_id(id));
    let fi = focus_index(m.tasks);
    lemma_first_index(m.tasks, is_focused());
    let tasks1 = with_focus_target(m.tasks, Some(id));
    let m1 = spec_set_focus(m, id, now, tail_recent).0;
    assert(m1.logs.drop_last() =~= m.logs);
    let e = m1.logs.last();
    let tasks2 = with_focus_target(tasks1, e.prev_focus_id);
    if fi >= 0 {
        let pid = m.tasks[fi].id;
        assert(is_focused()(m.tasks[fi]));
        assert forall|j: int| 0 <= j < m.tasks.len() implies tasks2[j] == m.tasks[j] by {
            assert(tasks1[j] == focus_applied(m.tasks[j], Some(id)));
            assert(tasks2[j] == focus_applied(tasks1[j], Some(pid)));
            if j == fi {
                assert(m.tasks[j].is_focus);
            } else {
                if m.tasks[j].is_focus {
                    assert(j == fi);
                }
                if m.tasks[j].id == pid {
                    assert(m.tasks[j].id != m.tasks[fi].id || j == fi);
                }
            }
        }
        assert(tasks2 =~= m.tasks);
    } else {
        assert forall|j: int| 0 <= j < m.tasks.len() implies tasks2[j] == m.tasks[j] by {
            assert(tasks1[j] == focus_applied(m.tasks[j], Some(id)));
            assert(tasks2[j] == focus_applied(tasks1[j], None));
            assert(!is_focused()(m.tasks[j]));
        }
        assert(tasks2 =~= m.tasks);
    }
}

/// A `clear_focus` that found a focus and appended a fresh journal
/// entry, followed by one undo, restores the task set and the journal.
pub proof fn lemma_undo_clear_focus(m: Model, now: String, tail_recent: bool)
    requires
        inv(m),
        focus_index(m.tasks) >= 0,
        !tail_merges(m, tail_recent),
    ensures
        ({
            let m1 = spec_clear_focus(m, now, tail_recent);
            let (m2, r2) = spec_undo(m1);
            &&& r2 is Ok
            &&& m2.tasks == m.tasks
            &&& m2.logs == m.logs
            &&& m2.next_id == m.next_id
        }),
{
    let fi = focus_index(m.tasks);
    lemma_first_index(m.tasks, is_focused());
    assert(is_focused()(m.tasks[fi]));
    let fid = m.tasks[fi].id;
    let tasks1 = with_focus_target(m.tasks, None);
    let m1 = spec_clear_focus(m, now, tail_recent);
    assert(m1.logs.drop_last() =~= m.logs);
    let tasks2 = with_focus_target(tasks1, Some(fid));
    assert forall|j: int| 0 <= j < m.tasks.len() implies tasks2[j] == m.tasks[j] by {
        assert(tasks1[j] == focus_applied(m.tasks[j], None));
        assert(tasks2[j] == focus_applied(tasks1[j], Some(fid)));
        if j != fi {
            if m.tasks[j].is_focus {
                assert(j == fi);
            }
            if m.tasks[j].id == fid {
                assert(m.tasks[j].id != m.tasks[fi].id || j == fi);
            }
        }
    }
    assert(tasks2 =~= m.tasks);
}

/// A successful removal that triggered no focus cascade, followed by
/// one undo, restores the task set (reinserted at the end of the
/// order: the multiset of tasks is exactly the original) and the
/// journal.
pub proof fn lemma_undo_remove_task(m: Model, id: u64, now: String, ev: Event)
    requires
        inv(m),
        ev == Event::TaskDone || ev == Event::TaskDeleted,
        spec_remove_task(m, id, now, ev).1 is Ok,
        ({
            let i = task_index(m.tasks, id);
            m.tasks[i].is_focus ==> first_active_index(m.tasks.remove(i)) < 0
        }),
    ensures
        ({
            let i = task_index(m.tasks, id);
            let m1 = spec_remove_task(m, id, now, ev).0;
            let (m2, r2) = spec_undo(m1);
            &&& r2 is Ok
            &&& m2.tasks == m.tasks.remove(i).push(m.tasks[i])
            &&& m2.tasks.to_multiset() == m.tasks.to_multiset()
            &&& m2.logs == m.logs
            &&& m2.next_id == m.next_id
        }),
{
    broadcast use vstd::seq_lib::group_to_multiset_ensures;

    let i = task_index(m.tasks, id);
    lemma_first_index(m.tasks, is_id(id));
    let t = m.tasks[i];
    assert(t.id == id);
    let tasksb = m.tasks.remove(i);
    let m1 = spec_remove_task(m, id, now, ev).0;
    assert(m1.tasks == tasksb);
    assert(m1.logs.drop_last() =~= m.logs);
    let e = m1.logs.last();
    assert(e.event == ev);
    assert(restored_focus(e) == t.is_focus);
    let tp = tasksb.push(Task { id, text: t.text, status: t.status, is_focus: t.is_focus });
    assert(Task { id, text: t.text, status: t.status, is_focus: t.is_focus } == t);
    if t.is_focus {
        // nothing else was focused, so unfocusing the others is the identity
        assert forall|k: int| 0 <= k < tasksb.len() implies !(#[trigger] tasksb[k].is_focus) by {
            let k0 = if k < i {
                k
            } else {
                k + 1
            };
            assert(tasksb[k] == m.tasks[k0]);
            if m.tasks[k0].is_focus {
                assert(is_focused()(m.tasks[i]));
            }
        }
        let tu = with_others_unfocused(tp, id);
        assert forall|k: int| 0 <= k < tp.len() implies tu[k] == tp[k] by {
            assert(tu[k] == unfocus_except(tp[k], id));
            if k < tasksb.len() {
                assert(tp[k] == tasksb[k]);
                assert(!tasksb[k].is_focus);
                if tp[k].id != id {
                    assert(Task {
                        id: tp[k].id,
                        text: tp[k].text,
                        status: tp[k].status,
                        is_focus: false,
                    } == tp[k]);
                }
            }
        }
        assert(tu =~= tp);
    }
    assert(spec_undo_tasks(m1.tasks, e) == tp);
    // the multiset of tasks is restored
    assert(tasksb.to_multiset() =~= m.tasks.to_multiset().remove(t));
    assert(tp.to_multiset() =~= tasksb.to_multiset().insert(t));
    assert(m.tasks.to_multiset().contains(t));
    assert(tp.to_multiset() =~= m.tasks.to_multiset());
}

/// Removing the focused task while another active task remains journals
/// two entries; two undos restore the original task set (the removed
/// task comes back at the end of the order, focused again) and journal.
pub proof fn lemma_double_undo_remove_focused(m: Model, id: u64, now: String, ev: Event)
    requires
        inv(m),
        ev == Event::TaskDone || ev == Event::TaskDeleted,
        has_task(m.tasks, id),
        m.tasks[task_index(m.tasks, id)].is_focus,
        first_active_index(m.tasks.remove(task_index(m.tasks, id))) >= 0,
    ensures
        ({
            let i = task_index(m.tasks, id);
            let m1 = spec_remove_task(m, id, now, ev).0;
            let (m2, r2) = spec_undo(m1);
            let (m3, r3) = spec_undo(m2);
            &&& r2 is Ok
            &&& r3 is Ok
            &&& m3.tasks == m.tasks.remove(i).push(m.tasks[i])
            &&& m3.tasks.to_multiset() == m.tasks.to_multiset()
            &&& m3.tasks.last() == m.tasks[i]
            &&& m3.tasks.last().is_focus
            &&& m3.logs == m.logs
            &&& m3.next_id == m.next_id
        }),
{
    broadcast use vstd::seq_lib::group_to_multiset_ensures;

    let i = task_index(m.tasks, id);
    lemma_first_index(m.tasks, is_id(id));
    let t = m.tasks[i];
    assert(t.id == id);
    let tasksb = m.tasks.remove(i);
    // after the removal nothing is focused
    assert forall|k: int| 0 <= k < tasksb.len() implies !(#[trigger] tasksb[k].is_focus) by {
        let k0 = if k < i {
            k
        } else {
            k + 1
        };
        assert(tasksb[k] == m.tasks[k0]);
        if m.tasks[k0].is_focus {
            assert(is_focused()(m.tasks[i]));
        }
    }
    let j = first_active_index(tasksb);
    lemma_first_index(tasksb, is_active());
    let u = tasksb[j];
    let u2 = Task { id: u.id, text: u.text, status: u.status, is_focus: true };
    let tasksc = tasksb.update(j, u2);
    let m1 = spec_remove_task(m, id, now, ev).0;
    assert(m1.tasks == tasksc);
    let e2 = m1.logs.last();
    assert(e2.event == Event::SwitchFocus && e2.prev_focus_id is None);
    // first undo: clear the cascaded focus
    let tasks2 = with_focus_target(tasksc, None);
    assert forall|k: int| 0 <= k < tasksb.len() implies tasks2[k] == tasksb[k] by {
        assert(tasks2[k] == focus_applied(tasksc[k], None));
        if k == j {
            assert(!tasksb[j].is_focus);
            assert(Task { id: u2.id, text: u2.text, status: u2.status, is_focus: false } == u);
        } else {
            assert(tasksc[k] == tasksb[k]);
            assert(!tasksb[k].is_focus);
            assert(Task {
                id: tasksb[k].id,
                text: tasksb[k].text,
                status: tasksb[k].status,
                is_focus: false,
            } == tasksb[k]);
        }
    }
    assert(tasks2 =~= tasksb);
    let (m2, r2) = spec_undo(m1);
    assert(m2.tasks == tasksb);
    assert(m2.logs =~= spec_add_log(m, spec_remove_task_entry(m, id, now, ev)).logs);
    // second undo: reinsert the removed task, focused
    let e = m2.logs.last();
    assert(e.event == ev);
    assert(restored_focus(e) == true);
    let tp = tasksb.push(Task { id, text: t.text, status: t.status, is_focus: true });
    assert(Task { id, text: t.text, status: t.status, is_focus: true } == t);
    let tu = with_others_unfocused(tp, id);
    assert forall|k: int| 0 <= k < tp.len() implies tu[k] == tp[k] by {
        assert(tu[k] == unfocus_except(tp[k], id));
        if k < tasksb.len() {
            assert(tp[k] == tasksb[k]);
            assert(!tasksb[k].is_focus);
            if tp[k].id != id {
                assert(Task {
                    id: tp[k].id,
                    text: tp[k].text,
                    status: tp[k].status,
                    is_focus: false,
                } == tp[k]);
            }
        }
    }
    assert(tu =~= tp);
    let (m3, r3) = spec_undo(m2);
    assert(m3.tasks == tp);
    assert(m2.logs.drop_last() =~= m.logs);
    // the multiset of tasks is restored
    assert(tasksb.to_multiset() =~= m.tasks.to_multiset().remove(t));
    assert(tp.to_multiset() =~= tasksb.to_multiset().insert(t));
    assert(m.tasks.to_multiset().contains(t));
    assert(tp.to_multiset() =~= m.tasks.to_multiset());
}

/// The entry a removal writes first; shared between the law above and
/// its proof.
pub open spec fn spec_remove_task_entry(m: Model, id: u64, now: String, ev: Event) -> LogEntry {
    let t = m.tasks[task_index(m.tasks, id)];
    LogEntry {
        time: now,
        event: ev,
        task: t.text,
        task_id: Some(id),
        prev_status: Some(t.status),
        prev_text: Some(t.text),
        prev_focus: Some(t.is_focus),
        prev_focus_id: None,
    }
}

/// Clearing the focus is idempotent: after one `clear_focus` no task is
/// focused, so a second call changes nothing and journals nothing,
/// whatever the clock says.
pub proof fn lemma_clear_focus_idempotent(
    m: Model,
    now1: String,
    rec1: bool,
    now2: String,
    rec2: bool,
)
    ensures
        spec_clear_focus(spec_clear_focus(m, now1, rec1), now2, rec2) == spec_clear_focus(
            m,
            now1,
            rec1,
        ),
{
    let m1 = spec_clear_focus(m, now1, rec1);
    let fi = focus_index(m.tasks);
    if fi < 0 {
        assert(m1 == m);
    } else {
        lemma_first_index(m1.tasks, is_focused());
        if focus_index(m1.tasks) >= 0 {
            assert(is_focused()(m1.tasks[focus_index(m1.tasks)]));
            assert(m1.tasks[focus_index(m1.tasks)] == focus_applied(
                m.tasks[focus_index(m1.tasks)],
                None,
            ));
        }
    }
}

/// A focus switch within the merge window rewrites the journal tail in
/// place: the journal does not grow, the tail still records a single
/// focus switch, now to the new task, and it keeps the `prev_focus_id`
/// from the start of the episode.
pub proof fn lemma_set_focus_merges(m: Model, id: u64, now: String)
    requires
        m.logs.len() > 0,
        m.logs.last().event == Event::SwitchFocus,
        spec_set_focus(m, id, now, true).1 is Ok,
    ensures
        ({
            let m1 = spec_set_focus(m, id, now, true).0;
            &&& m1.logs.len() == m.logs.len()
            &&& m1.logs.last().event == Event::SwitchFocus
            &&& m1.logs.last().task_id == Some(id)
            &&& m1.logs.last().prev_focus_id == m.logs.last().prev_focus_id
            &&& forall|k: int| 0 <= k < m.logs.len() - 1 ==> m1.logs[k] == m.logs[k]
        }),
{
}

/// An episode of two focus switches within the merge window leaves
/// exactly one journal entry: the fresh entry of the first switch,
/// merged in place by the second, still pointing back at the focus
/// from before the episode.
pub proof fn lemma_focus_episode_single_entry(
    m: Model,
    id1: u64,
    id2: u64,
    now1: String,
    now2: String,
    rec1: bool,
)
    requires
        inv(m),
        !tail_merges(m, rec1),
        spec_set_focus(m, id1, now1, rec1).1 is Ok,
        spec_set_focus(spec_set_focus(m, id1, now1, rec1).0, id2, now2, true).1 is Ok,
    ensures
        ({
            let m1 = spec_set_focus(m, id1, now1, rec1).0;
            let m2 = spec_set_focus(m1, id2, now2, true).0;
            &&& m1.logs.len() == m.logs.len() + 1
            &&& m2.logs.len() == m.logs.len() + 1
            &&& m2.logs.last().event == Event::SwitchFocus
            &&& m2.logs.last().task_id == Some(id2)
            &&& m2.logs.last().prev_focus_id == (if focus_index(m.tasks) >= 0 {
                Some(m.tasks[focus_index(m.tasks)].id)
            } else {
                None
            })
        }),
{
    let m1 = spec_set_focus(m, id1, now1, rec1).0;
    assert(m1.logs.last().event == Event::SwitchFocus);
    lemma_set_focus_merges(m1, id2, now2);
}

} // verus!
