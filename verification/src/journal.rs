//! The journal: an append-only sequence of log entries, with a full
//! snapshot of the task set taken every `SNAPSHOT_INTERVAL` appends and
//! at most `MAX_SNAPSHOTS` snapshots retained.

use vstd::prelude::*;

use crate::clock;
use crate::state::{
    clone_tasks, inv, snaps_view, wf_snapshots, AppData, Event, LogEntry, Model, Snap,
    StateSnapshot, Status, MAX_SNAPSHOTS, SNAPSHOT_INTERVAL,
};

verus! {

/// The model of one journal append: push the entry; if the journal
/// length reaches a multiple of `SNAPSHOT_INTERVAL`, record a snapshot
/// of the tasks and `next_id`, evicting the oldest beyond
/// `MAX_SNAPSHOTS`.
pub open spec fn spec_add_log(m: Model, e: LogEntry) -> Model {
    let logs2 = m.logs.push(e);
    if logs2.len() % (SNAPSHOT_INTERVAL as nat) == 0 {
        let snaps2 = m.snapshots.push(
            Snap { log_index: logs2.len() as usize, tasks: m.tasks, next_id: m.next_id },
        );
        let snaps3 = if snaps2.len() > MAX_SNAPSHOTS {
            snaps2.remove(0)
        } else {
            snaps2
        };
        Model { tasks: m.tasks, logs: logs2, next_id: m.next_id, snapshots: snaps3 }
    } else {
        Model { tasks: m.tasks, logs: logs2, next_id: m.next_id, snapshots: m.snapshots }
    }
}

/// Appending a journal entry never disturbs the state invariant: the
/// tasks and `next_id` are untouched, and the snapshot ring stays
/// well-formed.
pub proof fn lemma_add_log_preserves_inv(m: Model, e: LogEntry)
    requires
        inv(m),
        m.logs.len() < usize::MAX,
    ensures
        inv(spec_add_log(m, e)),
{
    let m2 = spec_add_log(m, e);
    let logs2 = m.logs.push(e);
    if logs2.len() % (SNAPSHOT_INTERVAL as nat) == 0 {
        let snap = Snap { log_index: logs2.len() as usize, tasks: m.tasks, next_id: m.next_id };
        let snaps2 = m.snapshots.push(snap);
        assert(snap.log_index > 0);
        assert(snap.log_index as int % (SNAPSHOT_INTERVAL as int) == 0);
        assert(forall|i: int|
            0 <= i < snaps2.len() - 1 ==> #[trigger] snaps2[i] == m.snapshots[i]);
        if snaps2.len() > MAX_SNAPSHOTS {
            let snaps3 = snaps2.remove(0);
            assert(forall|i: int| 0 <= i < snaps3.len() ==> #[trigger] snaps3[i] == snaps2[i + 1]);
            assert(wf_snapshots(snaps3));
        }
    }
}

/// The snapshots' journal positions stay strictly increasing, and never
/// ahead of the journal, as long as the journal only grows: a fresh
/// snapshot is taken at the new length, beyond every earlier one. (An
/// undo or a collapsed focus episode shortens the journal without
/// touching the snapshots, after which a position can repeat; the
/// snapshots are a historical record, not a recovery log.)
pub proof fn lemma_add_log_snapshots_monotone(m: Model, e: LogEntry)
    requires
        m.logs.len() < usize::MAX,
        forall|i: int, j: int|
            0 <= i < j < m.snapshots.len() ==> m.snapshots[i].log_index
                < m.snapshots[j].log_index,
        forall|i: int|
            0 <= i < m.snapshots.len() ==> #[trigger] m.snapshots[i].log_index <= m.logs.len(),
    ensures
        ({
            let m2 = spec_add_log(m, e);
            &&& forall|i: int, j: int|
                0 <= i < j < m2.snapshots.len() ==> m2.snapshots[i].log_index
                    < m2.snapshots[j].log_index
            &&& forall|i: int|
                0 <= i < m2.snapshots.len() ==> #[trigger] m2.snapshots[i].log_index
                    <= m2.logs.len()
        }),
{
    let m2 = spec_add_log(m, e);
    let logs2 = m.logs.push(e);
    if logs2.len() % (SNAPSHOT_INTERVAL as nat) == 0 {
        let snap = Snap { log_index: logs2.len() as usize, tasks: m.tasks, next_id: m.next_id };
        let snaps2 = m.snapshots.push(snap);
        assert(forall|i: int|
            0 <= i < snaps2.len() - 1 ==> #[trigger] snaps2[i] == m.snapshots[i]);
        if snaps2.len() > MAX_SNAPSHOTS {
            let snaps3 = snaps2.remove(0);
            assert(forall|i: int| 0 <= i < snaps3.len() ==> #[trigger] snaps3[i] == snaps2[i + 1]);
        }
    }
}

pub proof fn lemma_snaps_view_push(s: Seq<StateSnapshot>, x: StateSnapshot)
    ensures
        snaps_view(s.push(x)) == snaps_view(s).push(x@),
{
    assert(snaps_view(s.push(x)) =~= snaps_view(s).push(x@));
}

pub proof fn lemma_snaps_view_remove0(s: Seq<StateSnapshot>)
    requires
        s.len() > 0,
    ensures
        snaps_view(s.remove(0)) == snaps_view(s).remove(0),
{
    assert(snaps_view(s.remove(0)) =~= snaps_view(s).remove(0));
}

/// Append `entry` to the journal, exactly as `spec_add_log` says.
pub fn add_log_entry(data: &mut AppData, entry: LogEntry)
    ensures
        final(data)@ == spec_add_log(old(data)@, entry),
        old(data)@.logs.len() < usize::MAX,
{
    let ghost m0 = old(data)@;
    data.logs.push(entry);
    let len = data.logs.len();
    if len % SNAPSHOT_INTERVAL == 0 {
        let snap_tasks = clone_tasks(&data.tasks);
        let snap = StateSnapshot { log_index: len, tasks: snap_tasks, next_id: data.next_id };
        proof {
            assert(snap@ == Snap {
                log_index: m0.logs.push(entry).len() as usize,
                tasks: m0.tasks,
                next_id: m0.next_id,
            });
            lemma_snaps_view_push(old(data).snapshots@, snap);
        }
        data.snapshots.push(snap);
        if data.snapshots.len() > MAX_SNAPSHOTS {
            data.snapshots.remove(0);
            proof {
                lemma_snaps_view_remove0(old(data).snapshots@.push(snap));
            }
        }
    }
    proof {
        assert(data@ =~= spec_add_log(m0, entry));
    }
}

/// Append an entry carrying the full set of inverse fields, stamped
/// with the current clock.
pub fn add_log_extended(
    data: &mut AppData,
    event: Event,
    task_text: String,
    task_id: Option<u64>,
    prev_status: Option<Status>,
    prev_text: Option<String>,
    prev_focus: Option<bool>,
    prev_focus_id: Option<u64>,
)
    ensures
        exists|t: String|
            final(data)@ == spec_add_log(
                old(data)@,
                LogEntry {
                    time: t,
                    event,
                    task: task_text,
                    task_id,
                    prev_status,
                    prev_text,
                    prev_focus,
                    prev_focus_id,
                },
            ),
        inv(old(data)@) ==> inv(final(data)@),
{
    let now = clock::get_timestamp();
    let ghost t0 = now;
    let entry = LogEntry {
        time: now,
        event,
        task: task_text,
        task_id,
        prev_status,
        prev_text,
        prev_focus,
        prev_focus_id,
    };
    add_log_entry(data, entry);
    proof {
        assert(data@ == spec_add_log(
            old(data)@,
            LogEntry {
                time: t0,
                event,
                task: task_text,
                task_id,
                prev_status,
                prev_text,
                prev_focus,
                prev_focus_id,
            },
        ));
        if inv(old(data)@) {
            lemma_add_log_preserves_inv(old(data)@, entry);
        }
    }
}

/// Append a bare entry: only the event and the task text.
pub fn add_log(data: &mut AppData, event: Event, task_text: String)
    ensures
        exists|t: String|
            final(data)@ == spec_add_log(
                old(data)@,
                LogEntry {
                    time: t,
                    event,
                    task: task_text,
                    task_id: None,
                    prev_status: None,
                    prev_text: None,
                    prev_focus: None,
                    prev_focus_id: None,
                },
            ),
        inv(old(data)@) ==> inv(final(data)@),
{
    add_log_extended(data, event, task_text, None, None, None, None, None)
}

} // verus!
