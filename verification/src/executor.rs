//! Bookkeeping of the tasks that run on Qt's event loop: which identifier each spawned task
//! gets, which identifiers are free again, and what a poll of a task does to the table.
use rustc_hash::FxBuildHasher;
use rustc_hash::FxHashMap;
use vstd::prelude::*;

verus! {

/// The hasher builder of `FxHashMap`.
#[verifier::external_type_specification]
#[verifier::external_body]
pub struct ExFxBuildHasher(FxBuildHasher);

/// Creates an empty map with `FxHashMap::default()` (std's `HashMap` with rustc-hash's
/// `FxBuildHasher`); it holds no entry.
#[verifier::external_body]
fn fx_map_new<F>() -> (r: FxHashMap<u32,F>)
    ensures
        r@ == empty_table::<F>(),
{
    FxHashMap::default()
}

/// Inserts with `HashMap::insert` on an `FxHashMap`: the key maps to the value afterwards and
/// the value it mapped to before, if any, comes back.
#[verifier::external_body]
fn fx_map_insert<F>(m: &mut FxHashMap<u32, F>, k: u32, v: F) -> (r: Option<F>)
    ensures
        final(m)@ == old(m)@.insert(k, v),
        match r {
            Some(prev) => old(m)@.contains_key(k) && prev == old(m)@[k],
            None => !old(m)@.contains_key(k),
        },
{
    m.insert(k, v)
}

/// Removes with `HashMap::remove` on an `FxHashMap`: the key maps to nothing afterwards and
/// the value it mapped to before, if any, comes back.
#[verifier::external_body]
fn fx_map_remove<F>(m: &mut FxHashMap<u32, F>, k: u32) -> (r: Option<F>)
    ensures
        final(m)@ == old(m)@.remove(k),
        match r {
            Some(prev) => old(m)@.contains_key(k) && prev == old(m)@[k],
            None => !old(m)@.contains_key(k),
        },
{
    m.remove(&k)
}

/// Looks a key up with `HashMap::contains_key` on an `FxHashMap`.
#[verifier::external_body]
fn fx_map_contains_key<F>(m: &FxHashMap<u32, F>, k: u32) -> (r: bool)
    ensures
        r == m@.contains_key(k),
{
    m.contains_key(&k)
}

/// The table with no task.
pub open spec fn empty_table<F>() -> Map<u32, F> {
    Map::empty()
}

/// The state of an [Executor] as plain values: the live tasks by identifier, the identifiers
/// free for reuse (the last one is reused first) and the next fresh identifier.
pub struct ExecutorView<F> {
    pub tasks: Map<u32, F>,
    pub recycled: Seq<u32>,
    pub next_id: u32,
}

/// What a poll of a task ended with.
pub enum PollOutcome<F> {
    /// The task is not finished and goes back to the table.
    Pending(F),
    /// The task finished; `waker` is what its waker held when it was cleared: zero when the
    /// waker had already been used.
    Ready { waker: u32 },
}

/// The identifier the next spawned task gets: the last freed one, else a fresh one.
pub open spec fn spawn_id<F>(v: ExecutorView<F>) -> u32 {
    if v.recycled.len() > 0 {
        v.recycled.last()
    } else {
        v.next_id
    }
}

/// Whether a task can be spawned without failing: a reused identifier must not belong to a
/// live task, and a fresh one must be free and leave room for the next.
pub open spec fn can_spawn<F>(v: ExecutorView<F>) -> bool {
    if v.recycled.len() > 0 {
        !v.tasks.contains_key(v.recycled.last())
    } else {
        v.next_id < u32::MAX && !v.tasks.contains_key(v.next_id)
    }
}

/// The state after `task` was spawned.
pub open spec fn after_spawn<F>(v: ExecutorView<F>, task: F) -> ExecutorView<F> {
    if v.recycled.len() > 0 {
        ExecutorView {
            tasks: v.tasks.insert(v.recycled.last(), task),
            recycled: v.recycled.drop_last(),
            next_id: v.next_id,
        }
    } else {
        ExecutorView {
            tasks: v.tasks.insert(v.next_id, task),
            recycled: v.recycled,
            next_id: (v.next_id + 1) as u32,
        }
    }
}

/// The state after the task `id` was taken out to be polled: a poll for an identifier with
/// no live task frees that identifier.
pub open spec fn after_take<F>(v: ExecutorView<F>, id: u32) -> ExecutorView<F> {
    if v.tasks.contains_key(id) {
        ExecutorView { tasks: v.tasks.remove(id), recycled: v.recycled, next_id: v.next_id }
    } else {
        ExecutorView { tasks: v.tasks, recycled: v.recycled.push(id), next_id: v.next_id }
    }
}

/// The state after the poll of the task `id` ended with `outcome`: a pending task goes back,
/// a finished task frees its identifier unless its waker was used.
pub open spec fn after_poll<F>(v: ExecutorView<F>, id: u32, outcome: PollOutcome<F>) -> ExecutorView<F> {
    match outcome {
        PollOutcome::Pending(t) => ExecutorView {
            tasks: v.tasks.insert(id, t),
            recycled: v.recycled,
            next_id: v.next_id,
        },
        PollOutcome::Ready { waker } => if waker == 0 {
            v
        } else {
            ExecutorView { tasks: v.tasks, recycled: v.recycled.push(id), next_id: v.next_id }
        },
    }
}

/// The executor's bookkeeping is sound: identifiers are non-zero and below the next fresh
/// one, no freed identifier is live, and none is freed twice.
pub open spec fn well_kept<F>(v: ExecutorView<F>) -> bool {
    &&& 1 <= v.next_id
    &&& forall|k: u32| #[trigger] v.tasks.contains_key(k) ==> 1 <= k < v.next_id
    &&& forall|i: int|
        0 <= i < v.recycled.len() ==> 1 <= #[trigger] v.recycled[i] < v.next_id
            && !v.tasks.contains_key(v.recycled[i])
    &&& v.recycled.no_duplicates()
}

/// Spawning keeps the bookkeeping sound, and the identifier it hands out is non-zero and
/// belongs to no live task.
pub proof fn lemma_spawn_keeps_well_kept<F>(v: ExecutorView<F>, task: F)
    requires
        well_kept(v),
        can_spawn(v),
    ensures
        spawn_id(v) != 0,
        !v.tasks.contains_key(spawn_id(v)),
        well_kept(after_spawn(v, task)),
{
    let w = after_spawn(v, task);
    if v.recycled.len() > 0 {
        let last = v.recycled.last();
        assert(v.recycled[v.recycled.len() - 1] == last);
        assert forall|i: int| 0 <= i < w.recycled.len() implies 1 <= #[trigger] w.recycled[i]
            < w.next_id && !w.tasks.contains_key(w.recycled[i]) by {
            assert(w.recycled[i] == v.recycled[i]);
            assert(v.recycled[i] != v.recycled[v.recycled.len() - 1]);
        }
        assert forall|i: int, j: int|
            0 <= i < w.recycled.len() && 0 <= j < w.recycled.len() && i != j implies w.recycled[i]
            != w.recycled[j] by {
            assert(w.recycled[i] == v.recycled[i] && w.recycled[j] == v.recycled[j]);
        }
    }
}

/// A sound executor can always spawn while it has a freed identifier or room for a fresh
/// one.
pub proof fn lemma_well_kept_can_spawn<F>(v: ExecutorView<F>)
    requires
        well_kept(v),
        v.recycled.len() > 0 || v.next_id < u32::MAX,
    ensures
        can_spawn(v),
{
    if v.recycled.len() > 0 {
        assert(v.recycled[v.recycled.len() - 1] == v.recycled.last());
    }
}

/// Taking a live task out and recording how its poll ended keeps the bookkeeping sound,
/// whatever the poll ended with.
pub proof fn lemma_poll_keeps_well_kept<F>(v: ExecutorView<F>, id: u32, outcome: PollOutcome<F>)
    requires
        well_kept(v),
        v.tasks.contains_key(id),
    ensures
        well_kept(after_take(v, id)),
        well_kept(after_poll(after_take(v, id), id, outcome)),
{
    let t = after_take(v, id);
    let p = after_poll(t, id, outcome);
    assert forall|i: int| 0 <= i < v.recycled.len() implies v.recycled[i] != id by {}
    match outcome {
        PollOutcome::Pending(_) => {},
        PollOutcome::Ready { waker } => {
            if waker != 0 {
                assert forall|i: int| 0 <= i < p.recycled.len() implies 1 <= #[trigger] p.recycled[i]
                    < p.next_id && !p.tasks.contains_key(p.recycled[i]) by {
                    if i < v.recycled.len() {
                        assert(p.recycled[i] == v.recycled[i]);
                    }
                }
                assert forall|i: int, j: int|
                    0 <= i < p.recycled.len() && 0 <= j < p.recycled.len() && i != j implies p.recycled[i]
                    != p.recycled[j] by {
                    if i < v.recycled.len() {
                        assert(p.recycled[i] == v.recycled[i]);
                    }
                    if j < v.recycled.len() {
                        assert(p.recycled[j] == v.recycled[j]);
                    }
                }
            }
        },
    }
}

/// A poll for an identifier whose task has finished without freeing it (its waker had been
/// used) frees it and keeps the bookkeeping sound.
pub proof fn lemma_late_wake_keeps_well_kept<F>(v: ExecutorView<F>, id: u32)
    requires
        well_kept(v),
        1 <= id < v.next_id,
        !v.tasks.contains_key(id),
        !v.recycled.contains(id),
    ensures
        well_kept(after_take(v, id)),
        spawn_id(after_take(v, id)) == id,
{
    let t = after_take(v, id);
    assert forall|i: int| 0 <= i < t.recycled.len() implies 1 <= #[trigger] t.recycled[i]
        < t.next_id && !t.tasks.contains_key(t.recycled[i]) by {
        if i < v.recycled.len() {
            assert(t.recycled[i] == v.recycled[i]);
        }
    }
    assert forall|i: int, j: int|
        0 <= i < t.recycled.len() && 0 <= j < t.recycled.len() && i != j implies t.recycled[i]
        != t.recycled[j] by {
        if i < v.recycled.len() {
            assert(t.recycled[i] == v.recycled[i]);
        }
        if j < v.recycled.len() {
            assert(t.recycled[j] == v.recycled[j]);
        }
    }
}

/// The identifier of a task that finished without its waker having been used is the one the
/// next spawn hands out.
pub proof fn lemma_finished_id_reused_first<F>(v: ExecutorView<F>, id: u32, waker: u32)
    requires
        v.tasks.contains_key(id),
        waker != 0,
    ensures
        spawn_id(after_poll(after_take(v, id), id, PollOutcome::Ready { waker })) == id,
{
}

/// A poll that leaves its task pending gives back the table it started from.
pub proof fn lemma_pending_poll_restores<F>(v: ExecutorView<F>, id: u32)
    requires
        v.tasks.contains_key(id),
    ensures
        after_poll(after_take(v, id), id, PollOutcome::Pending(v.tasks[id])) == v,
{
    let p = after_poll(after_take(v, id), id, PollOutcome::Pending(v.tasks[id]));
    assert(p.tasks =~= v.tasks);
}

/// Taking out the task that was just spawned gives back that task and the table as it was
/// before the spawn.
pub proof fn lemma_spawn_then_take<F>(v: ExecutorView<F>, task: F)
    requires
        can_spawn(v),
    ensures
        after_spawn(v, task).tasks.contains_key(spawn_id(v)),
        after_spawn(v, task).tasks[spawn_id(v)] == task,
        after_take(after_spawn(v, task), spawn_id(v)).tasks == v.tasks,
{
    let id = spawn_id(v);
    if v.recycled.len() > 0 {
        assert(v.recycled[v.recycled.len() - 1] == v.recycled.last());
    }
    assert(after_take(after_spawn(v, task), id).tasks =~= v.tasks);
}

/// The table of tasks that run on the event loop.
pub struct Executor<F> {
    tasks: FxHashMap<u32, F>,
    recycle_ids: Vec<u32>,
    next_id: u32,
}

impl<F> View for Executor<F> {
    type V = ExecutorView<F>;

    closed spec fn view(&self) -> ExecutorView<F> {
        ExecutorView { tasks: self.tasks@, recycled: self.recycle_ids@, next_id: self.next_id }
    }
}

impl<F> Executor<F> {
    /// An executor with no task, whose first identifier is 1.
    pub fn new() -> (r: Executor<F>)
        ensures
            r@.tasks == empty_table::<F>(),
            r@.recycled.len() == 0,
            r@.next_id == 1,
            well_kept(r@),
    {
        Executor { tasks: fx_map_new(), recycle_ids: Vec::new(), next_id: 1 }
    }

    /// Whether [Self::spawn] can take a task now.
    pub fn can_spawn(&self) -> (r: bool)
        ensures
            r == can_spawn(self@),
    {
        let n = self.recycle_ids.len();
        if n > 0 {
            !fx_map_contains_key(&self.tasks, self.recycle_ids[n - 1])
        } else {
            self.next_id < u32::MAX && !fx_map_contains_key(&self.tasks, self.next_id)
        }
    }

    /// Whether a task with identifier `id` is in the table.
    pub fn is_live(&self, id: u32) -> (r: bool)
        ensures
            r == self@.tasks.contains_key(id),
    {
        fx_map_contains_key(&self.tasks, id)
    }

    /// Adds `task` to the table under the last freed identifier, else under a fresh one, and
    /// returns that identifier, for which the first poll is then to be scheduled.
    pub fn spawn(&mut self, task: F) -> (id: u32)
        requires
            can_spawn(old(self)@),
        ensures
            id == spawn_id(old(self)@),
            !old(self)@.tasks.contains_key(id),
            final(self)@ == after_spawn(old(self)@, task),
    {
        let id = match self.recycle_ids.pop() {
            Some(v) => v,
            None => {
                let v = self.next_id;
                self.next_id = v + 1;
                v
            },
        };
        let prev = fx_map_insert(&mut self.tasks, id, task);
        assert(prev is None);
        proof {
            assert(self@.recycled =~= after_spawn(old(self)@, task).recycled);
        }
        id
    }

    /// Takes the task `id` out of the table to poll it. When there is none, the poll came from
    /// a waker of a task that has finished, and `id` is free again.
    pub fn take(&mut self, id: u32) -> (r: Option<F>)
        requires
            id != 0,
        ensures
            final(self)@ == after_take(old(self)@, id),
            match r {
                Some(t) => old(self)@.tasks.contains_key(id) && t == old(self)@.tasks[id],
                None => !old(self)@.tasks.contains_key(id),
            },
    {
        let r = fx_map_remove(&mut self.tasks, id);
        if r.is_none() {
            self.recycle_ids.push(id);
        }
        proof {
            assert(self@.tasks =~= after_take(old(self)@, id).tasks);
            assert(self@.recycled =~= after_take(old(self)@, id).recycled);
        }
        r
    }

    /// Records how the poll of the task `id`, taken out with [Self::take], ended.
    pub fn finish_poll(&mut self, id: u32, outcome: PollOutcome<F>)
        requires
            outcome is Pending ==> !old(self)@.tasks.contains_key(id),
        ensures
            final(self)@ == after_poll(old(self)@, id, outcome),
    {
        match outcome {
            PollOutcome::Pending(t) => {
                let prev = fx_map_insert(&mut self.tasks, id, t);
                assert(prev is None);
            },
            PollOutcome::Ready { waker } => {
                if waker != 0 {
                    self.recycle_ids.push(id);
                }
            },
        }
    }
}

} // verus!
