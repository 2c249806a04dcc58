//! Data model: tasks, journal entries, snapshots, the whole application
//! state, and the invariants every command preserves.

use vstd::prelude::*;

verus! {

/// Number of tasks that may be `Active` at once.
pub const MAX_ACTIVE: usize = 5;

/// A snapshot is taken whenever the journal length reaches a positive
/// multiple of this interval.
pub const SNAPSHOT_INTERVAL: usize = 10;

/// Number of snapshots retained; the oldest is evicted beyond this.
pub const MAX_SNAPSHOTS: usize = 5;

/// Seconds within which consecutive focus switches collapse into a
/// single journal entry.
pub const MERGE_WINDOW_SECONDS: i64 = 30;

/// Where a task currently lives: surfaced for work, or parked.
#[derive(Clone, Copy, Debug, PartialEq, Eq, Structural)]
pub enum Status {
    Active,
    Later,
}

/// The kind of mutation a journal entry records. `Unknown` stands for
/// event names written by other versions; undo treats it as a no-op.
#[derive(Clone, Copy, Debug, PartialEq, Eq, Structural)]
pub enum Event {
    TaskCreated,
    TaskEdited,
    TaskDeleted,
    TaskDone,
    MoveToActive,
    MoveToLater,
    SwitchFocus,
    ClearFocus,
    Unknown,
}

/// Why a command was refused. State is untouched on every error.
#[derive(Clone, Copy, Debug, PartialEq, Eq, Structural)]
pub enum CoreError {
    /// More than `MAX_ACTIVE` active tasks would result.
    CapacityExceeded,
    /// No task with the supplied id.
    NotFound,
    /// Focus requested on a task that is not active.
    NotActive,
    /// The journal is empty.
    NothingToUndo,
}

/// A single task.
#[derive(Debug)]
pub struct Task {
    pub id: u64,
    pub text: String,
    pub status: Status,
    pub is_focus: bool,
}

/// One journal entry: the event, the post-event text of the affected
/// task, and the pre-event values its inverse needs.
#[derive(Debug)]
pub struct LogEntry {
    pub time: String,
    pub event: Event,
    pub task: String,
    pub task_id: Option<u64>,
    pub prev_status: Option<Status>,
    pub prev_text: Option<String>,
    pub prev_focus: Option<bool>,
    pub prev_focus_id: Option<u64>,
}

/// A periodic full copy of the task set, kept for audit.
#[derive(Debug)]
pub struct StateSnapshot {
    pub log_index: usize,
    pub tasks: Vec<Task>,
    pub next_id: u64,
}

/// The whole application state.
#[derive(Debug)]
pub struct AppData {
    pub tasks: Vec<Task>,
    pub logs: Vec<LogEntry>,
    pub next_id: u64,
    pub snapshots: Vec<StateSnapshot>,
}

/// `std::sync::Mutex`, which vstd gives no specification; declared so
/// that `AppState` can hold the shared state behind a lock. Verified
/// code only carries the value; the embedding takes the lock.
#[verifier::external_type_specification]
#[verifier::external_body]
#[verifier::reject_recursive_types(T)]
pub struct ExMutex<T: ?Sized>(std::sync::Mutex<T>);

/// The whole application state behind its exclusive lock.
pub struct AppState(pub std::sync::Mutex<AppData>);

/// Mathematical view of a snapshot.
#[verifier::ext_equal]
pub struct Snap {
    pub log_index: usize,
    pub tasks: Seq<Task>,
    pub next_id: u64,
}

/// Mathematical view of the whole state; contracts speak of this.
#[verifier::ext_equal]
pub struct Model {
    pub tasks: Seq<Task>,
    pub logs: Seq<LogEntry>,
    pub next_id: u64,
    pub snapshots: Seq<Snap>,
}

impl View for StateSnapshot {
    type V = Snap;

    open spec fn view(&self) -> Snap {
        Snap { log_index: self.log_index, tasks: self.tasks@, next_id: self.next_id }
    }
}

pub open spec fn snaps_view(s: Seq<StateSnapshot>) -> Seq<Snap> {
    Seq::new(s.len(), |i: int| s[i]@)
}

impl View for AppData {
    type V = Model;

    open spec fn view(&self) -> Model {
        Model {
            tasks: self.tasks@,
            logs: self.logs@,
            next_id: self.next_id,
            snapshots: snaps_view(self.snapshots@),
        }
    }
}

impl AppData {
    /// An empty state: no tasks, empty journal, ids start at zero.
    pub fn new() -> (r: AppData)
        ensures
            r@.tasks.len() == 0,
            r@.logs.len() == 0,
            r@.next_id == 0,
            r@.snapshots.len() == 0,
            inv(r@),
    {
        let r = AppData { tasks: Vec::new(), logs: Vec::new(), next_id: 0, snapshots: Vec::new() };
        proof {
            assert(r@.snapshots =~= Seq::<Snap>::empty());
        }
        r
    }
}

impl Default for AppData {
    /// The empty state.
    fn default() -> (r: AppData)
        ensures
            r@.tasks.len() == 0,
            r@.logs.len() == 0,
            r@.next_id == 0,
            r@.snapshots.len() == 0,
            inv(r@),
    {
        AppData::new()
    }
}

// ---------------------------------------------------------------------
// First-index searches over the task sequence.
// ---------------------------------------------------------------------

/// Index of the first element satisfying `p`, or -1 if none does.
pub open spec fn first_index(s: Seq<Task>, p: spec_fn(Task) -> bool) -> int
    decreases s.len(),
{
    if s.len() == 0 {
        -1
    } else if p(s[0]) {
        0
    } else {
        let r = first_index(s.drop_first(), p);
        if r < 0 {
            -1
        } else {
            r + 1
        }
    }
}

pub proof fn lemma_first_index(s: Seq<Task>, p: spec_fn(Task) -> bool)
    ensures
        -1 <= first_index(s, p) < s.len(),
        first_index(s, p) == -1 ==> forall|i: int| 0 <= i < s.len() ==> !p(#[trigger] s[i]),
        first_index(s, p) >= 0 ==> p(s[first_index(s, p)]),
        first_index(s, p) >= 0 ==> forall|j: int| 0 <= j < first_index(s, p) ==> !p(#[trigger] s[j]),
    decreases s.len(),
{
    if s.len() > 0 && !p(s[0]) {
        let st = s.drop_first();
        lemma_first_index(st, p);
        if first_index(st, p) == -1 {
            assert forall|i: int| 0 <= i < s.len() implies !p(#[trigger] s[i]) by {
                if i > 0 {
                    assert(st[i - 1] == s[i]);
                    assert(!p(st[i - 1]));
                }
            }
        } else {
            assert forall|j: int| 0 <= j < first_index(s, p) implies !p(#[trigger] s[j]) by {
                if j > 0 {
                    assert(st[j - 1] == s[j]);
                    assert(!p(st[j - 1]));
                }
            }
        }
    }
}

pub proof fn lemma_first_index_at(s: Seq<Task>, p: spec_fn(Task) -> bool, i: int)
    requires
        0 <= i < s.len(),
        p(s[i]),
        forall|j: int| 0 <= j < i ==> !p(s[j]),
    ensures
        first_index(s, p) == i,
    decreases s.len(),
{
    if i > 0 {
        assert(s.drop_first()[i - 1] == s[i]);
        assert(forall|j: int| 0 <= j < i - 1 ==> s.drop_first()[j] == s[j + 1]);
        lemma_first_index_at(s.drop_first(), p, i - 1);
    }
}

pub open spec fn is_id(id: u64) -> spec_fn(Task) -> bool {
    |t: Task| t.id == id
}

pub open spec fn is_focused() -> spec_fn(Task) -> bool {
    |t: Task| t.is_focus
}

pub open spec fn is_active() -> spec_fn(Task) -> bool {
    |t: Task| t.status == Status::Active
}

/// Index of the first task with the given id, or -1.
pub open spec fn task_index(s: Seq<Task>, id: u64) -> int {
    first_index(s, is_id(id))
}

/// Index of the first focused task, or -1.
pub open spec fn focus_index(s: Seq<Task>) -> int {
    first_index(s, is_focused())
}

/// Index of the first active task, or -1.
pub open spec fn first_active_index(s: Seq<Task>) -> int {
    first_index(s, is_active())
}

pub open spec fn has_task(s: Seq<Task>, id: u64) -> bool {
    task_index(s, id) >= 0
}

// ---------------------------------------------------------------------
// Counting active tasks.
// ---------------------------------------------------------------------

/// How many tasks are `Active`.
pub open spec fn count_active(s: Seq<Task>) -> int
    decreases s.len(),
{
    if s.len() == 0 {
        0
    } else {
        count_active(s.drop_last()) + if s.last().status == Status::Active {
            1int
        } else {
            0int
        }
    }
}

pub proof fn lemma_count_active_bounds(s: Seq<Task>)
    ensures
        0 <= count_active(s) <= s.len(),
    decreases s.len(),
{
    if s.len() > 0 {
        lemma_count_active_bounds(s.drop_last());
    }
}

pub proof fn lemma_count_active_push(s: Seq<Task>, t: Task)
    ensures
        count_active(s.push(t)) == count_active(s) + if t.status == Status::Active {
            1int
        } else {
            0int
        },
{
    assert(s.push(t).drop_last() =~= s);
    assert(s.push(t).last() == t);
}

/// Two task sequences with the same statuses position by position have
/// the same active count.
pub proof fn lemma_count_active_pointwise(s1: Seq<Task>, s2: Seq<Task>)
    requires
        s1.len() == s2.len(),
        forall|i: int| 0 <= i < s1.len() ==> s1[i].status == s2[i].status,
    ensures
        count_active(s1) == count_active(s2),
    decreases s1.len(),
{
    if s1.len() > 0 {
        assert(forall|i: int| 0 <= i < s1.drop_last().len() ==> s1.drop_last()[i].status
            == s2.drop_last()[i].status);
        lemma_count_active_pointwise(s1.drop_last(), s2.drop_last());
        assert(s1.last().status == s2.last().status);
    }
}

pub proof fn lemma_count_active_update(s: Seq<Task>, i: int, t: Task)
    requires
        0 <= i < s.len(),
    ensures
        count_active(s.update(i, t)) == count_active(s) - (if s[i].status == Status::Active {
            1int
        } else {
            0int
        }) + (if t.status == Status::Active {
            1int
        } else {
            0int
        }),
    decreases s.len(),
{
    if i == s.len() - 1 {
        assert(s.update(i, t).drop_last() =~= s.drop_last());
        assert(s.update(i, t).last() == t);
    } else {
        assert(s.update(i, t).drop_last() =~= s.drop_last().update(i, t));
        lemma_count_active_update(s.drop_last(), i, t);
        assert(s.update(i, t).last() == s.last());
    }
}

pub proof fn lemma_count_active_remove(s: Seq<Task>, i: int)
    requires
        0 <= i < s.len(),
    ensures
        count_active(s.remove(i)) == count_active(s) - if s[i].status == Status::Active {
            1int
        } else {
            0int
        },
    decreases s.len(),
{
    if i == s.len() - 1 {
        assert(s.remove(i) =~= s.drop_last());
    } else {
        assert(s.remove(i).drop_last() =~= s.drop_last().remove(i));
        lemma_count_active_remove(s.drop_last(), i);
        assert(s.remove(i).last() == s.last());
    }
}

// ---------------------------------------------------------------------
// Focus rewrites.
// ---------------------------------------------------------------------

/// The task with its focus flag set exactly when its id matches the target.
pub open spec fn focus_applied(t: Task, target: Option<u64>) -> Task {
    Task { id: t.id, text: t.text, status: t.status, is_focus: target == Some(t.id) }
}

/// All tasks rewritten so that exactly the target id (if any) is focused.
pub open spec fn with_focus_target(s: Seq<Task>, target: Option<u64>) -> Seq<Task> {
    Seq::new(s.len(), |i: int| focus_applied(s[i], target))
}

/// The task unfocused unless it is the one to keep.
pub open spec fn unfocus_except(t: Task, keep: u64) -> Task {
    if t.id == keep {
        t
    } else {
        Task { id: t.id, text: t.text, status: t.status, is_focus: false }
    }
}

/// All tasks other than `keep` unfocused.
pub open spec fn with_others_unfocused(s: Seq<Task>, keep: u64) -> Seq<Task> {
    Seq::new(s.len(), |i: int| unfocus_except(s[i], keep))
}

// ---------------------------------------------------------------------
// The state invariant.
// ---------------------------------------------------------------------

/// Task ids are unique within the task set.
pub open spec fn ids_unique(s: Seq<Task>) -> bool {
    forall|i: int, j: int| 0 <= i < j < s.len() ==> s[i].id != s[j].id
}

/// Every existing task id lies strictly below the bound.
pub open spec fn ids_below(s: Seq<Task>, bound: u64) -> bool {
    forall|i: int| 0 <= i < s.len() ==> #[trigger] s[i].id < bound
}

/// At most one task is focused, and a focused task is active.
pub open spec fn focus_ok(s: Seq<Task>) -> bool {
    &&& forall|i: int, j: int|
        0 <= i < s.len() && 0 <= j < s.len() && #[trigger] s[i].is_focus && #[trigger] s[j].is_focus
            ==> i == j
    &&& forall|i: int| 0 <= i < s.len() && #[trigger] s[i].is_focus ==> s[i].status == Status::Active
}

/// At most `MAX_SNAPSHOTS` snapshots, each taken at a positive multiple
/// of `SNAPSHOT_INTERVAL` journal entries.
pub open spec fn wf_snapshots(s: Seq<Snap>) -> bool {
    &&& s.len() <= MAX_SNAPSHOTS
    &&& forall|i: int|
        0 <= i < s.len() ==> #[trigger] s[i].log_index > 0 && s[i].log_index as int
            % (SNAPSHOT_INTERVAL as int) == 0
}

/// The task-set part of the invariant: unique ids below the id bound,
/// at most `MAX_ACTIVE` active tasks, a unique active focus.
pub open spec fn tasks_ok(tasks: Seq<Task>, next_id: u64) -> bool {
    &&& ids_unique(tasks)
    &&& ids_below(tasks, next_id)
    &&& count_active(tasks) <= MAX_ACTIVE
    &&& focus_ok(tasks)
}

/// The invariant every command preserves: a well-formed task set and
/// well-formed snapshots.
pub open spec fn inv(m: Model) -> bool {
    &&& tasks_ok(m.tasks, m.next_id)
    &&& wf_snapshots(m.snapshots)
}

// ---------------------------------------------------------------------
// Deep copies. Cloned strings are equal to their originals, so each
// copy is provably the very same value.
// ---------------------------------------------------------------------

pub fn clone_task(t: &Task) -> (r: Task)
    ensures
        r == *t,
{
    Task { id: t.id, text: t.text.clone(), status: t.status, is_focus: t.is_focus }
}

pub fn clone_tasks(ts: &Vec<Task>) -> (r: Vec<Task>)
    ensures
        r@ == ts@,
{
    let mut r: Vec<Task> = Vec::new();
    let n = ts.len();
    let mut i: usize = 0;
    while i < n
        invariant
            i <= n,
            n == ts.len(),
            r@.len() == i as int,
            forall|j: int| 0 <= j < i ==> r@[j] == ts@[j],
        decreases n - i,
    {
        r.push(clone_task(&ts[i]));
        i += 1;
    }
    proof {
        assert(r@ =~= ts@);
    }
    r
}

pub fn clone_opt_string(o: &Option<String>) -> (r: Option<String>)
    ensures
        r == *o,
{
    match o {
        Some(s) => Some(s.clone()),
        None => None,
    }
}

pub fn clone_entry(e: &LogEntry) -> (r: LogEntry)
    ensures
        r == *e,
{
    LogEntry {
        time: e.time.clone(),
        event: e.event,
        task: e.task.clone(),
        task_id: e.task_id,
        prev_status: e.prev_status,
        prev_text: clone_opt_string(&e.prev_text),
        prev_focus: e.prev_focus,
        prev_focus_id: e.prev_focus_id,
    }
}

pub fn clone_logs(ls: &Vec<LogEntry>) -> (r: Vec<LogEntry>)
    ensures
        r@ == ls@,
{
    let mut r: Vec<LogEntry> = Vec::new();
    let n = ls.len();
    let mut i: usize = 0;
    while i < n
        invariant
            i <= n,
            n == ls.len(),
            r@.len() == i as int,
            forall|j: int| 0 <= j < i ==> r@[j] == ls@[j],
        decreases n - i,
    {
        r.push(clone_entry(&ls[i]));
        i += 1;
    }
    proof {
        assert(r@ =~= ls@);
    }
    r
}

pub fn clone_snapshot(s: &StateSnapshot) -> (r: StateSnapshot)
    ensures
        r@ == s@,
{
    let r = StateSnapshot { log_index: s.log_index, tasks: clone_tasks(&s.tasks), next_id: s.next_id };
    proof {
        assert(r@ =~= s@);
    }
    r
}

pub fn clone_snapshots(ss: &Vec<StateSnapshot>) -> (r: Vec<StateSnapshot>)
    ensures
        snaps_view(r@) == snaps_view(ss@),
{
    let mut r: Vec<StateSnapshot> = Vec::new();
    let n = ss.len();
    let mut i: usize = 0;
    while i < n
        invariant
            i <= n,
            n == ss.len(),
            r@.len() == i as int,
            forall|j: int| 0 <= j < i ==> #[trigger] r@[j]@ == ss@[j]@,
        decreases n - i,
    {
        r.push(clone_snapshot(&ss[i]));
        i += 1;
    }
    proof {
        assert(snaps_view(r@) =~= snaps_view(ss@));
    }
    r
}

} // verus!
