use vstd::prelude::*;

verus! {

/// Most favoured scheduling priority.
pub const NICE_MIN: i32 = -20;

/// Least favoured scheduling priority.
pub const NICE_MAX: i32 = 19;

/// Identity of a task.
#[derive(Debug, Clone, Copy, PartialEq, Eq, Structural)]
pub struct TaskId {
    pub id: u64,
}

impl TaskId {
    pub fn from_u64(id: u64) -> (r: TaskId)
        ensures
            r.id == id,
    {
        TaskId { id }
    }

    pub fn as_u64(&self) -> (r: u64)
        ensures
            r == self.id,
    {
        self.id
    }
}

#[derive(Debug, Clone, Copy, PartialEq, Eq, Structural)]
pub enum TaskState {
    Ready,
    Running,
    Blocked,
    Sleeping,
}

/// What the scheduler keeps of a task.
pub struct Task {
    pub name: String,
    pub nice: i32,
    pub state: TaskState,
    pub wake_tick: Option<u64>,
}

/// `r` is the task at index `j` of ready queue `q`, the first of those with
/// the lowest nice value, and `new` holds the rest of `q` in the same order.
pub open spec fn picks_from(q: Seq<u64>, new: Scheduler, j: int, r: Option<TaskId>) -> bool {
    &&& 0 <= j < q.len()
    &&& r == Some(TaskId { id: q[j] })
    &&& new.spec_ready() == q.remove(j)
    &&& forall|k: int| 0 <= k < q.len() ==> new.nice_of(#[trigger] q[k]) >= new.nice_of(q[j])
    &&& forall|k: int| 0 <= k < j ==> new.nice_of(#[trigger] q[k]) > new.nice_of(q[j])
}

/// Among ready tasks of the same nice value, the one that arrived first runs
/// first, and those left keep their order.
pub proof fn law_equal_nice_fifo(q: Seq<u64>, new: Scheduler, j: int, r: Option<TaskId>, a: int, b: int)
    requires
        picks_from(q, new, j, r),
        0 <= a < b < q.len(),
        new.nice_of(q[a]) == new.nice_of(q[b]),
        r == Some(TaskId { id: q[b] }) ==> j == b,
    ensures
        j != b,
        a != j ==> {
            let a2 = if a < j { a } else { a - 1 };
            let b2 = if b < j { b } else { b - 1 };
            &&& a2 < b2
            &&& new.spec_ready()[a2] == q[a]
            &&& new.spec_ready()[b2] == q[b]
        },
{
    if j == b {
        assert(new.nice_of(q[a]) > new.nice_of(q[j]));
    }
}

/// A sleeping task stays asleep, neither ready nor running, as long as the
/// tick has not reached its wake-up tick.
pub proof fn law_sleeper_waits_for_deadline(before: Scheduler, after: Scheduler, id: u64)
    requires
        before.wf(),
        after.wf(),
        before.sleepers_kept(&after),
        after.spec_tasks().len() == before.spec_tasks().len(),
        id < before.spec_tasks().len(),
        before.state_of(id) == TaskState::Sleeping,
        after.spec_tick() < before.spec_tasks()[id as int].wake_tick->0,
    ensures
        after.state_of(id) == TaskState::Sleeping,
        !after.spec_ready().contains(id),
        after.spec_current() != Some(id),
{
    if after.spec_ready().contains(id) {
        let i = choose|i: int| 0 <= i < after.spec_ready().len() && after.spec_ready()[i] == id;
        assert(after.state_of(after.spec_ready()[i]) == TaskState::Ready);
    }
}

/// The tasks that a tick at `now` wakes from the sleeping entries `sl`, in
/// the entries' order: those due (entry and own wake-up tick not after
/// `now`) and asleep in `s`, each once.
pub open spec fn woken_sleepers(s: Scheduler, sl: Seq<(u64, u64)>, now: u64) -> Seq<u64>
    decreases sl.len(),
{
    if sl.len() == 0 {
        Seq::empty()
    } else {
        let prev = woken_sleepers(s, sl.drop_last(), now);
        let (d, t) = sl.last();
        if d <= now && t < s.spec_tasks().len() && s.state_of(t) == TaskState::Sleeping
            && s.spec_tasks()[t as int].wake_tick is Some && s.spec_tasks()[t as int].wake_tick->0 <= now
            && !prev.contains(t) {
            prev.push(t)
        } else {
            prev
        }
    }
}

/// The sleeping entries that are not yet due at `now`, in order.
pub open spec fn kept_sleepers(sl: Seq<(u64, u64)>, now: u64) -> Seq<(u64, u64)>
    decreases sl.len(),
{
    if sl.len() == 0 {
        Seq::empty()
    } else {
        let prev = kept_sleepers(sl.drop_last(), now);
        if sl.last().0 > now {
            prev.push(sl.last())
        } else {
            prev
        }
    }
}

pub proof fn lemma_push_contains(s: Seq<u64>, x: u64, t: u64)
    ensures
        s.push(x).contains(t) == (s.contains(t) || t == x),
{
    if t == x {
        assert(s.push(x)[s.len() as int] == x);
    }
    if s.contains(t) {
        let j = choose|j: int| 0 <= j < s.len() && s[j] == t;
        assert(s.push(x)[j] == t);
    }
    if s.push(x).contains(t) && t != x {
        let j = choose|j: int| 0 <= j < s.push(x).len() && s.push(x)[j] == t;
        assert(s[j] == t);
    }
}

/// Whether the running task, which got the CPU at tick `slice_start`, has
/// used up its quantum of `quantum` ticks by tick `now`, so that the timer
/// handler yields to the scheduler.
pub fn quantum_expired(now: u64, slice_start: u64, quantum: u64) -> (r: bool)
    ensures
        r == (now >= slice_start && now - slice_start >= quantum),
{
    now >= slice_start && now - slice_start >= quantum
}

/// Ticks in `ms` milliseconds at `frequency_hz` ticks per second.
pub open spec fn spec_ms_to_ticks(ms: u64, frequency_hz: u64) -> int {
    (ms as int * frequency_hz as int) / 1000
}

/// Ticks in `ms` milliseconds at `frequency_hz`, saturating at `u64::MAX`.
pub fn ms_to_ticks(ms: u64, frequency_hz: u64) -> (r: u64)
    ensures
        spec_ms_to_ticks(ms, frequency_hz) <= u64::MAX ==> r == spec_ms_to_ticks(ms, frequency_hz),
        spec_ms_to_ticks(ms, frequency_hz) > u64::MAX ==> r == u64::MAX,
{
    proof {
        assert((ms as int) * (frequency_hz as int) <= (u64::MAX as int) * (u64::MAX as int)) by (nonlinear_arith);
    }
    let product = (ms as u128) * (frequency_hz as u128);
    let ticks = product / 1000;
    if ticks > u64::MAX as u128 {
        u64::MAX
    } else {
        ticks as u64
    }
}

/// The task scheduler of a single CPU: tasks by id, the ready queue in order
/// of arrival, the sleeping tasks with their wake-up ticks, the running task
/// and the tick counter.
pub struct Scheduler {
    tasks: Vec<Task>,
    ready: Vec<u64>,
    sleeping: Vec<(u64, u64)>,
    current: Option<u64>,
    tick: u64,
    frequency_hz: u64,
}

impl Scheduler {
    pub closed spec fn spec_tasks(&self) -> Seq<Task> {
        self.tasks@
    }

    /// Ready task ids, oldest arrival first.
    pub closed spec fn spec_ready(&self) -> Seq<u64> {
        self.ready@
    }

    /// `(wake-up tick, task id)` of the sleeping tasks.
    pub closed spec fn spec_sleeping(&self) -> Seq<(u64, u64)> {
        self.sleeping@
    }

    pub closed spec fn spec_current(&self) -> Option<u64> {
        self.current
    }

    pub closed spec fn spec_tick(&self) -> u64 {
        self.tick
    }

    pub closed spec fn spec_frequency(&self) -> u64 {
        self.frequency_hz
    }

    pub open spec fn state_of(&self, id: u64) -> TaskState {
        self.spec_tasks()[id as int].state
    }

    pub open spec fn nice_of(&self, id: u64) -> i32 {
        self.spec_tasks()[id as int].nice
    }

    pub open spec fn wf(&self) -> bool {
        &&& forall|i: int| 0 <= i < self.spec_ready().len() ==> (#[trigger] self.spec_ready()[i]) < self.spec_tasks().len()
            && self.state_of(self.spec_ready()[i]) == TaskState::Ready
        &&& forall|i: int| 0 <= i < self.spec_sleeping().len() ==> (#[trigger] self.spec_sleeping()[i]).1 < self.spec_tasks().len()
        &&& forall|id: u64| id < self.spec_tasks().len() && #[trigger] self.state_of(id) == TaskState::Sleeping
            ==> self.spec_tasks()[id as int].wake_tick is Some
        &&& self.spec_current() matches Some(c) ==> c < self.spec_tasks().len() && self.state_of(c) == TaskState::Running
        &&& self.spec_tasks().len() < u64::MAX
        &&& self.spec_ready().no_duplicates()
    }

    /// A task that was sleeping is still sleeping, unless the tick reached
    /// its wake-up tick.
    pub open spec fn sleepers_kept(&self, new: &Scheduler) -> bool {
        forall|id: u64| id < self.spec_tasks().len() && #[trigger] self.state_of(id) == TaskState::Sleeping
            ==> new.state_of(id) == TaskState::Sleeping || (self.spec_tasks()[id as int].wake_tick is Some
                && self.spec_tasks()[id as int].wake_tick->0 <= new.spec_tick())
    }

    /// The ready queue once the running task, if any, has been put back at its tail.
    pub open spec fn requeued(&self) -> Seq<u64> {
        match self.spec_current() {
            Some(c) => self.spec_ready().push(c),
            None => self.spec_ready(),
        }
    }

    pub fn new(frequency_hz: u64) -> (r: Scheduler)
        ensures
            r.wf(),
            r.spec_tasks().len() == 0,
            r.spec_ready().len() == 0,
            r.spec_sleeping().len() == 0,
            r.spec_current() is None,
            r.spec_tick() == 0,
            r.spec_frequency() == frequency_hz,
    {
        Scheduler { tasks: Vec::new(), ready: Vec::new(), sleeping: Vec::new(), current: None, tick: 0, frequency_hz }
    }

    /// Creates a ready task and queues it at the tail; returns its id.
    pub fn add_task(&mut self, name: String, nice: i32) -> (r: TaskId)
        requires
            old(self).wf(),
            old(self).spec_tasks().len() + 1 < u64::MAX,
            NICE_MIN <= nice <= NICE_MAX,
        ensures
            final(self).wf(),
            r.id == old(self).spec_tasks().len(),
            final(self).spec_tasks().len() == old(self).spec_tasks().len() + 1,
            final(self).state_of(r.id) == TaskState::Ready,
            final(self).nice_of(r.id) == nice,
            forall|id: u64| id < old(self).spec_tasks().len() ==> #[trigger] final(self).spec_tasks()[id as int] == old(self).spec_tasks()[id as int],
            final(self).spec_ready() == old(self).spec_ready().push(r.id),
            final(self).spec_sleeping() == old(self).spec_sleeping(),
            final(self).spec_current() == old(self).spec_current(),
            final(self).spec_tick() == old(self).spec_tick(),
            final(self).spec_frequency() == old(self).spec_frequency(),
    {
        let id = self.tasks.len() as u64;
        self.tasks.push(Task { name, nice, state: TaskState::Ready, wake_tick: None });
        self.ready.push(id);
        proof {
            assert forall|i: int| 0 <= i < self.spec_ready().len() implies (#[trigger] self.spec_ready()[i]) < self.spec_tasks().len()
                && self.state_of(self.spec_ready()[i]) == TaskState::Ready by {
                if i < old(self).spec_ready().len() {
                    assert(self.spec_ready()[i] == old(self).spec_ready()[i]);
                }
            }
            assert forall|tid: u64| tid < self.spec_tasks().len() && #[trigger] self.state_of(tid) == TaskState::Sleeping
                implies self.spec_tasks()[tid as int].wake_tick is Some by {
                assert(tid < old(self).spec_tasks().len());
                assert(old(self).state_of(tid) == TaskState::Sleeping);
            }
            assert forall|i: int| 0 <= i < self.spec_sleeping().len() implies (#[trigger] self.spec_sleeping()[i]).1 < self.spec_tasks().len() by {
                assert(self.spec_sleeping()[i] == old(self).spec_sleeping()[i]);
            }
            assert forall|a: int, b: int| 0 <= a < b < self.spec_ready().len() implies self.spec_ready()[a] != self.spec_ready()[b] by {
                if b == old(self).spec_ready().len() {
                    assert(old(self).spec_ready()[a] < old(self).spec_tasks().len());
                }
            }
        }
        TaskId { id }
    }

    fn set_state(&mut self, id: u64, state: TaskState, wake_tick: Option<u64>)
        requires
            id < old(self).spec_tasks().len(),
        ensures
            final(self).spec_tasks().len() == old(self).spec_tasks().len(),
            final(self).spec_tasks()[id as int].state == state,
            final(self).spec_tasks()[id as int].wake_tick == wake_tick,
            final(self).spec_tasks()[id as int].nice == old(self).spec_tasks()[id as int].nice,
            forall|j: int| 0 <= j < old(self).spec_tasks().len() && j != id ==> #[trigger] final(self).spec_tasks()[j] == old(self).spec_tasks()[j],
            final(self).spec_ready() == old(self).spec_ready(),
            final(self).spec_sleeping() == old(self).spec_sleeping(),
            final(self).spec_current() == old(self).spec_current(),
            final(self).spec_tick() == old(self).spec_tick(),
            final(self).spec_frequency() == old(self).spec_frequency(),
    {
        let n = self.tasks.len();
        let idx = id as usize;
        assert(idx as int == id as int);
        let mut t = Task { name: String::new(), nice: 0, state: TaskState::Ready, wake_tick: None };
        self.tasks.set_and_swap(idx, &mut t);
        t.state = state;
        t.wake_tick = wake_tick;
        let ghost taken = t;
        self.tasks.set_and_swap(idx, &mut t);
        assert(self.spec_tasks()[id as int] == taken);
    }

    /// Index in the ready queue of the task to run next: the first of those
    /// with the lowest nice value.
    pub fn pick_next(&self) -> (r: Option<usize>)
        requires
            self.wf(),
        ensures
            r is None <==> self.spec_ready().len() == 0,
            r matches Some(j) ==> j < self.spec_ready().len()
                && (forall|k: int| 0 <= k < self.spec_ready().len() ==> self.nice_of(#[trigger] self.spec_ready()[k]) >= self.nice_of(self.spec_ready()[j as int]))
                && (forall|k: int| 0 <= k < j ==> self.nice_of(#[trigger] self.spec_ready()[k]) > self.nice_of(self.spec_ready()[j as int])),
    {
        if self.ready.len() == 0 {
            return None;
        }
        let n = self.tasks.len();
        let mut best: usize = 0;
        let mut best_nice = self.tasks[self.ready[0] as usize].nice;
        let mut k: usize = 1;
        while k < self.ready.len()
            invariant
                self.wf(),
                n == self.spec_tasks().len(),
                1 <= k <= self.spec_ready().len(),
                best < k,
                best_nice == self.nice_of(self.spec_ready()[best as int]),
                forall|m: int| 0 <= m < k ==> self.nice_of(#[trigger] self.spec_ready()[m]) >= best_nice,
                forall|m: int| 0 <= m < best ==> self.nice_of(#[trigger] self.spec_ready()[m]) > best_nice,
            decreases self.spec_ready().len() - k,
        {
            let nice = self.tasks[self.ready[k] as usize].nice;
            if nice < best_nice {
                best = k;
                best_nice = nice;
            }
            k = k + 1;
        }
        Some(best)
    }

    /// Switches to the next task: the running task, if still running, goes
    /// back to the tail of the ready queue; then the first ready task of the
    /// lowest nice value is taken out and runs. Returns the running task.
    pub fn schedule(&mut self) -> (r: Option<TaskId>)
        requires
            old(self).wf(),
        ensures
            final(self).wf(),
            old(self).sleepers_kept(final(self)),
            final(self).spec_tasks().len() == old(self).spec_tasks().len(),
            final(self).spec_sleeping() == old(self).spec_sleeping(),
            final(self).spec_tick() == old(self).spec_tick(),
            final(self).spec_frequency() == old(self).spec_frequency(),
            r.is_some() == final(self).spec_current().is_some(),
            r matches Some(t) ==> final(self).spec_current() == Some(t.id),
            forall|t: u64| t < old(self).spec_tasks().len() && old(self).state_of(t) != TaskState::Ready && old(self).state_of(t) != TaskState::Running
                ==> #[trigger] final(self).spec_tasks()[t as int] == old(self).spec_tasks()[t as int],
            old(self).requeued().len() == 0 ==> r is None && final(self).spec_ready() == old(self).requeued(),
            old(self).requeued().len() > 0 ==> exists|j: int| #[trigger] picks_from(old(self).requeued(), *final(self), j, r),
    {
        if let Some(c) = self.current {
            self.set_state(c, TaskState::Ready, None);
            self.ready.push(c);
            self.current = None;
            proof {
                assert forall|a: int, b: int| 0 <= a < b < self.spec_ready().len() implies self.spec_ready()[a] != self.spec_ready()[b] by {
                    if b == old(self).spec_ready().len() {
                        assert(old(self).state_of(old(self).spec_ready()[a]) == TaskState::Ready);
                    }
                }
            }
        }
        let ghost q = self.spec_ready();
        let ghost mid = *self;
        proof {
            assert forall|i: int| 0 <= i < self.spec_ready().len() implies (#[trigger] self.spec_ready()[i]) < self.spec_tasks().len()
                && self.state_of(self.spec_ready()[i]) == TaskState::Ready by {
                if i < old(self).spec_ready().len() {
                    assert(self.spec_ready()[i] == old(self).spec_ready()[i]);
                    assert(old(self).state_of(old(self).spec_ready()[i]) == TaskState::Ready);
                }
            }
            assert forall|tid: u64| tid < self.spec_tasks().len() && #[trigger] self.state_of(tid) == TaskState::Sleeping
                implies self.spec_tasks()[tid as int].wake_tick is Some by {
                assert(old(self).state_of(tid) == TaskState::Sleeping);
            }
        }
        match self.pick_next() {
            None => None,
            Some(j) => {
                let id = self.ready.remove(j);
                self.set_state(id, TaskState::Running, None);
                self.current = Some(id);
                proof {
                    assert forall|a: int, b: int| 0 <= a < b < self.spec_ready().len() implies self.spec_ready()[a] != self.spec_ready()[b] by {
                        let sa = if a < j { a } else { a + 1 };
                        let sb = if b < j { b } else { b + 1 };
                        assert(self.spec_ready()[a] == q[sa]);
                        assert(self.spec_ready()[b] == q[sb]);
                    }
                    assert forall|i: int| 0 <= i < self.spec_sleeping().len() implies (#[trigger] self.spec_sleeping()[i]).1 < self.spec_tasks().len() by {
                        assert(self.spec_sleeping()[i] == old(self).spec_sleeping()[i]);
                    }
                    assert forall|tid: u64| tid < self.spec_tasks().len() && #[trigger] self.state_of(tid) == TaskState::Sleeping
                        implies self.spec_tasks()[tid as int].wake_tick is Some by {
                        assert(mid.state_of(tid) == TaskState::Sleeping);
                    }
                    assert forall|i: int| 0 <= i < self.spec_ready().len() implies (#[trigger] self.spec_ready()[i]) < self.spec_tasks().len()
                        && self.state_of(self.spec_ready()[i]) == TaskState::Ready by {
                        let src = if i < j { i } else { i + 1 };
                        assert(self.spec_ready()[i] == q[src]);
                        if q[src] == id {
                            assert(q[src] == q[j as int]);
                        }
                    }
                    assert forall|k: int| 0 <= k < q.len() implies self.nice_of(#[trigger] q[k]) == mid.nice_of(q[k]) by {
                        assert(q[k] < self.spec_tasks().len());
                    }
                    assert(q.len() > 0);
                    assert(old(self).requeued() == q);
                    assert forall|t: u64| t < old(self).spec_tasks().len() && old(self).state_of(t) != TaskState::Ready && old(self).state_of(t) != TaskState::Running
                        implies #[trigger] self.spec_tasks()[t as int] == old(self).spec_tasks()[t as int] by {
                        assert(mid.spec_tasks()[t as int] == old(self).spec_tasks()[t as int]);
                        assert(id != t) by {
                            assert(mid.state_of(q[j as int]) == TaskState::Ready);
                        }
                    }
                }
                let res = Some(TaskId { id });
                proof {
                    assert(picks_from(old(self).requeued(), *self, j as int, res));
                }
                res
            },
        }
    }

    /// Puts the running task to sleep for `ms` milliseconds: it sleeps until
    /// the tick reaches `tick + ms · frequency / 1000` (saturating), and the
    /// next ready task runs.
    pub fn sleep_ms(&mut self, ms: u64) -> (r: Option<TaskId>)
        requires
            old(self).wf(),
            old(self).spec_current() is Some,
        ensures
            final(self).wf(),
            old(self).sleepers_kept(final(self)),
            final(self).spec_tasks().len() == old(self).spec_tasks().len(),
            final(self).spec_tick() == old(self).spec_tick(),
            ({
                let c = old(self).spec_current()->0;
                let t = old(self).spec_tick() + spec_ms_to_ticks(ms, old(self).spec_frequency());
                let d = if t <= u64::MAX { t as u64 } else { u64::MAX };
                &&& final(self).state_of(c) == TaskState::Sleeping
                &&& final(self).spec_tasks()[c as int].wake_tick == Some(d)
                &&& final(self).spec_sleeping() == old(self).spec_sleeping().push((d, c))
            }),
            old(self).spec_ready().len() == 0 ==> r is None && final(self).spec_ready() == old(self).spec_ready(),
            old(self).spec_ready().len() > 0 ==> exists|j: int| #[trigger] picks_from(old(self).spec_ready(), *final(self), j, r),
    {
        let c = match self.current {
            Some(c) => c,
            None => {
                return None;
            },
        };
        let ticks = ms_to_ticks(ms, self.frequency_hz);
        let deadline = if ticks > u64::MAX - self.tick {
            u64::MAX
        } else {
            self.tick + ticks
        };
        self.set_state(c, TaskState::Sleeping, Some(deadline));
        self.sleeping.push((deadline, c));
        self.current = None;
        let ghost mid = *self;
        proof {
            assert forall|i: int| 0 <= i < self.spec_ready().len() implies (#[trigger] self.spec_ready()[i]) < self.spec_tasks().len()
                && self.state_of(self.spec_ready()[i]) == TaskState::Ready by {
                assert(old(self).state_of(old(self).spec_ready()[i]) == TaskState::Ready);
            }
            assert forall|i: int| 0 <= i < self.spec_sleeping().len() implies (#[trigger] self.spec_sleeping()[i]).1 < self.spec_tasks().len() by {
                if i < old(self).spec_sleeping().len() {
                    assert(self.spec_sleeping()[i] == old(self).spec_sleeping()[i]);
                }
            }
            assert forall|tid: u64| tid < self.spec_tasks().len() && #[trigger] self.state_of(tid) == TaskState::Sleeping
                implies self.spec_tasks()[tid as int].wake_tick is Some by {
                if tid != c {
                    assert(old(self).state_of(tid) == TaskState::Sleeping);
                }
            }
            assert(mid.requeued() == old(self).spec_ready());
        }
        let r = self.schedule();
        proof {
            assert(mid.state_of(c) == TaskState::Sleeping);
            assert(self.spec_tasks()[c as int] == mid.spec_tasks()[c as int]);
            assert forall|id: u64| id < old(self).spec_tasks().len() && #[trigger] old(self).state_of(id) == TaskState::Sleeping
                implies self.state_of(id) == TaskState::Sleeping || (old(self).spec_tasks()[id as int].wake_tick is Some
                    && old(self).spec_tasks()[id as int].wake_tick->0 <= self.spec_tick()) by {
                assert(mid.state_of(id) == TaskState::Sleeping);
                assert(self.spec_tasks()[id as int] == mid.spec_tasks()[id as int]);
            }
        }
        r
    }

    /// Blocks the running task until `unblock_task`, and runs the next ready one.
    pub fn block_current_task(&mut self) -> (r: Option<TaskId>)
        requires
            old(self).wf(),
            old(self).spec_current() is Some,
        ensures
            final(self).wf(),
            old(self).sleepers_kept(final(self)),
            final(self).spec_tasks().len() == old(self).spec_tasks().len(),
            final(self).spec_tick() == old(self).spec_tick(),
            final(self).spec_sleeping() == old(self).spec_sleeping(),
            final(self).state_of(old(self).spec_current()->0) == TaskState::Blocked,
            old(self).spec_ready().len() == 0 ==> r is None && final(self).spec_ready() == old(self).spec_ready(),
            old(self).spec_ready().len() > 0 ==> exists|j: int| #[trigger] picks_from(old(self).spec_ready(), *final(self), j, r),
    {
        let c = match self.current {
            Some(c) => c,
            None => {
                return None;
            },
        };
        self.set_state(c, TaskState::Blocked, None);
        self.current = None;
        let ghost mid = *self;
        proof {
            assert forall|i: int| 0 <= i < self.spec_ready().len() implies (#[trigger] self.spec_ready()[i]) < self.spec_tasks().len()
                && self.state_of(self.spec_ready()[i]) == TaskState::Ready by {
                assert(old(self).state_of(old(self).spec_ready()[i]) == TaskState::Ready);
            }
            assert forall|i: int| 0 <= i < self.spec_sleeping().len() implies (#[trigger] self.spec_sleeping()[i]).1 < self.spec_tasks().len() by {
                assert(self.spec_sleeping()[i] == old(self).spec_sleeping()[i]);
            }
            assert forall|tid: u64| tid < self.spec_tasks().len() && #[trigger] self.state_of(tid) == TaskState::Sleeping
                implies self.spec_tasks()[tid as int].wake_tick is Some by {
                assert(old(self).state_of(tid) == TaskState::Sleeping);
            }
            assert(mid.requeued() == old(self).spec_ready());
        }
        let r = self.schedule();
        proof {
            assert(mid.state_of(c) == TaskState::Blocked);
            assert(self.spec_tasks()[c as int] == mid.spec_tasks()[c as int]);
            assert forall|id: u64| id < old(self).spec_tasks().len() && #[trigger] old(self).state_of(id) == TaskState::Sleeping
                implies self.state_of(id) == TaskState::Sleeping || (old(self).spec_tasks()[id as int].wake_tick is Some
                    && old(self).spec_tasks()[id as int].wake_tick->0 <= self.spec_tick()) by {
                assert(mid.state_of(id) == TaskState::Sleeping);
                assert(self.spec_tasks()[id as int] == mid.spec_tasks()[id as int]);
            }
        }
        r
    }

    /// Makes blocked task `id` ready, at the tail of the ready queue. Returns
    /// whether it was blocked.
    pub fn unblock_task(&mut self, id: TaskId) -> (r: bool)
        requires
            old(self).wf(),
        ensures
            final(self).wf(),
            old(self).sleepers_kept(final(self)),
            r == (id.id < old(self).spec_tasks().len() && old(self).state_of(id.id) == TaskState::Blocked),
            r ==> final(self).state_of(id.id) == TaskState::Ready && final(self).spec_ready() == old(self).spec_ready().push(id.id),
            !r ==> final(self).spec_ready() == old(self).spec_ready() && final(self).spec_tasks() == old(self).spec_tasks(),
            final(self).spec_tasks().len() == old(self).spec_tasks().len(),
            forall|t: u64| t < old(self).spec_tasks().len() && t != id.id ==> #[trigger] final(self).state_of(t) == old(self).state_of(t),
            final(self).spec_sleeping() == old(self).spec_sleeping(),
            final(self).spec_current() == old(self).spec_current(),
            final(self).spec_tick() == old(self).spec_tick(),
    {
        let n = self.tasks.len();
        if id.id >= n as u64 {
            return false;
        }
        if self.tasks[id.id as usize].state != TaskState::Blocked {
            return false;
        }
        self.set_state(id.id, TaskState::Ready, None);
        self.ready.push(id.id);
        proof {
            assert forall|i: int| 0 <= i < self.spec_ready().len() implies (#[trigger] self.spec_ready()[i]) < self.spec_tasks().len()
                && self.state_of(self.spec_ready()[i]) == TaskState::Ready by {
                if i < old(self).spec_ready().len() {
                    assert(old(self).state_of(old(self).spec_ready()[i]) == TaskState::Ready);
                }
            }
            assert forall|a: int, b: int| 0 <= a < b < self.spec_ready().len() implies self.spec_ready()[a] != self.spec_ready()[b] by {
                if b == old(self).spec_ready().len() {
                    assert(old(self).state_of(old(self).spec_ready()[a]) == TaskState::Ready);
                }
            }
            assert forall|i: int| 0 <= i < self.spec_sleeping().len() implies (#[trigger] self.spec_sleeping()[i]).1 < self.spec_tasks().len() by {
                assert(self.spec_sleeping()[i] == old(self).spec_sleeping()[i]);
            }
            assert forall|tid: u64| tid < self.spec_tasks().len() && #[trigger] self.state_of(tid) == TaskState::Sleeping
                implies self.spec_tasks()[tid as int].wake_tick is Some by {
                assert(old(self).state_of(tid) == TaskState::Sleeping);
            }
            assert forall|t: u64| t < old(self).spec_tasks().len() && #[trigger] old(self).state_of(t) == TaskState::Sleeping
                implies self.state_of(t) == TaskState::Sleeping by {}
        }
        true
    }

    /// Advances the tick by one and makes every sleeping task whose wake-up
    /// tick has come ready, at the tail of the ready queue, in the order
    /// they went to sleep.
    pub fn timer_tick(&mut self)
        requires
            old(self).wf(),
            old(self).spec_tick() < u64::MAX,
        ensures
            final(self).wf(),
            old(self).sleepers_kept(final(self)),
            final(self).spec_tick() == old(self).spec_tick() + 1,
            final(self).spec_tasks().len() == old(self).spec_tasks().len(),
            final(self).spec_current() == old(self).spec_current(),
            final(self).spec_ready().len() >= old(self).spec_ready().len(),
            final(self).spec_ready().take(old(self).spec_ready().len() as int) == old(self).spec_ready(),
            forall|t: u64| t < old(self).spec_tasks().len() && old(self).state_of(t) != TaskState::Sleeping
                ==> #[trigger] final(self).state_of(t) == old(self).state_of(t),
            forall|i: int| 0 <= i < old(self).spec_sleeping().len() ==> {
                let (d, t) = #[trigger] old(self).spec_sleeping()[i];
                (d <= final(self).spec_tick() && old(self).state_of(t) == TaskState::Sleeping
                    && old(self).spec_tasks()[t as int].wake_tick == Some(d)) ==> final(self).state_of(t) == TaskState::Ready
            },
            forall|i: int| 0 <= i < final(self).spec_sleeping().len() ==> (#[trigger] final(self).spec_sleeping()[i]).0 > final(self).spec_tick(),
            final(self).spec_ready() == old(self).spec_ready() + woken_sleepers(*old(self), old(self).spec_sleeping(), final(self).spec_tick()),
            final(self).spec_sleeping() == kept_sleepers(old(self).spec_sleeping(), final(self).spec_tick()),
    {
        self.advance_tick();
        let now = self.tick;
        let ghost start = *self;
        let mut kept: Vec<(u64, u64)> = Vec::new();
        let n = self.sleeping.len();
        let tn = self.tasks.len();
        let mut i: usize = 0;
        while i < n
            invariant
                i <= n,
                n == start.spec_sleeping().len(),
                tn == self.spec_tasks().len(),
                self.spec_sleeping() == start.spec_sleeping(),
                self.spec_tick() == now,
                start.spec_tick() == now,
                now == old(self).spec_tick() + 1,
                self.spec_current() == old(self).spec_current(),
                self.spec_tasks().len() == old(self).spec_tasks().len(),
                start.spec_tasks() == old(self).spec_tasks(),
                start.spec_ready() == old(self).spec_ready(),
                start.spec_sleeping() == old(self).spec_sleeping(),
                self.wf(),
                self.spec_ready().len() >= old(self).spec_ready().len(),
                self.spec_ready().take(old(self).spec_ready().len() as int) == old(self).spec_ready(),
                forall|t: u64| t < old(self).spec_tasks().len() && old(self).state_of(t) != TaskState::Sleeping
                    ==> #[trigger] self.state_of(t) == old(self).state_of(t),
                forall|t: u64| t < old(self).spec_tasks().len() && #[trigger] old(self).state_of(t) == TaskState::Sleeping
                    ==> self.state_of(t) == TaskState::Sleeping || (self.state_of(t) == TaskState::Ready
                        && old(self).spec_tasks()[t as int].wake_tick is Some && old(self).spec_tasks()[t as int].wake_tick->0 <= now),
                forall|t: u64| t < old(self).spec_tasks().len() && #[trigger] self.state_of(t) == TaskState::Sleeping
                    ==> self.spec_tasks()[t as int] == old(self).spec_tasks()[t as int],
                forall|j: int| 0 <= j < i ==> {
                    let (d, t) = #[trigger] old(self).spec_sleeping()[j];
                    (d <= now && old(self).state_of(t) == TaskState::Sleeping
                        && old(self).spec_tasks()[t as int].wake_tick == Some(d)) ==> self.state_of(t) == TaskState::Ready
                },
                forall|j: int| 0 <= j < kept@.len() ==> (#[trigger] kept@[j]).0 > now && kept@[j].1 < self.spec_tasks().len(),
                self.spec_ready() == old(self).spec_ready() + woken_sleepers(*old(self), old(self).spec_sleeping().take(i as int), now),
                kept@ == kept_sleepers(old(self).spec_sleeping().take(i as int), now),
                forall|t: u64| t < old(self).spec_tasks().len() ==> (#[trigger] self.state_of(t) == TaskState::Sleeping)
                    == (old(self).state_of(t) == TaskState::Sleeping && !woken_sleepers(*old(self), old(self).spec_sleeping().take(i as int), now).contains(t)),
            decreases n - i,
        {
            let ghost sl = old(self).spec_sleeping();
            let ghost prev = woken_sleepers(*old(self), sl.take(i as int), now);
            let ghost pre0 = *self;
            proof {
                assert(sl.take(i + 1).drop_last() =~= sl.take(i as int));
                assert(sl.take(i + 1).last() == sl[i as int]);
            }
            let (d, t) = self.sleeping[i];
            proof {
                assert(sl[i as int] == (d, t));
                assert(t < old(self).spec_tasks().len());
                if pre0.state_of(t) == TaskState::Sleeping {
                    assert(pre0.spec_tasks()[t as int] == old(self).spec_tasks()[t as int]);
                }
            }
            if d > now {
                kept.push((d, t));
                proof {
                    assert(woken_sleepers(*old(self), sl.take(i + 1), now) == prev);
                    assert(kept@ =~= kept_sleepers(sl.take(i + 1), now));
                }
            } else {
                let ti = t as usize;
                let task_state = self.tasks[ti].state;
                let wake = self.tasks[ti].wake_tick;
                let due = match wake {
                    Some(w) => w <= now,
                    None => false,
                };
                if task_state == TaskState::Sleeping && due {
                    let ghost pre = *self;
                    self.set_state(t, TaskState::Ready, wake);
                    self.ready.push(t);
                    proof {
                        assert forall|k: int| 0 <= k < self.spec_ready().len() implies (#[trigger] self.spec_ready()[k]) < self.spec_tasks().len()
                            && self.state_of(self.spec_ready()[k]) == TaskState::Ready by {
                            if k < pre.spec_ready().len() {
                                assert(pre.state_of(pre.spec_ready()[k]) == TaskState::Ready);
                            }
                        }
                        assert forall|a: int, b: int| 0 <= a < b < self.spec_ready().len() implies self.spec_ready()[a] != self.spec_ready()[b] by {
                            if b == pre.spec_ready().len() {
                                assert(pre.state_of(pre.spec_ready()[a]) == TaskState::Ready);
                            }
                        }
                        assert forall|k: int| 0 <= k < self.spec_sleeping().len() implies (#[trigger] self.spec_sleeping()[k]).1 < self.spec_tasks().len() by {
                            assert(self.spec_sleeping()[k] == pre.spec_sleeping()[k]);
                        }
                        assert forall|tid: u64| tid < self.spec_tasks().len() && #[trigger] self.state_of(tid) == TaskState::Sleeping
                            implies self.spec_tasks()[tid as int].wake_tick is Some by {
                            assert(pre.state_of(tid) == TaskState::Sleeping);
                        }
                        assert(self.spec_ready().take(old(self).spec_ready().len() as int) =~= old(self).spec_ready()) by {
                            assert(pre.spec_ready().take(old(self).spec_ready().len() as int) == old(self).spec_ready());
                        }
                        assert forall|t2: u64| t2 < old(self).spec_tasks().len() && old(self).state_of(t2) != TaskState::Sleeping
                            implies #[trigger] self.state_of(t2) == old(self).state_of(t2) by {
                            assert(pre.state_of(t2) == old(self).state_of(t2));
                        }
                        assert forall|t2: u64| t2 < old(self).spec_tasks().len() && #[trigger] old(self).state_of(t2) == TaskState::Sleeping
                            implies self.state_of(t2) == TaskState::Sleeping || (self.state_of(t2) == TaskState::Ready
                                && old(self).spec_tasks()[t2 as int].wake_tick is Some && old(self).spec_tasks()[t2 as int].wake_tick->0 <= now) by {
                            assert(pre.state_of(t2) == TaskState::Sleeping || (pre.state_of(t2) == TaskState::Ready
                                && old(self).spec_tasks()[t2 as int].wake_tick is Some && old(self).spec_tasks()[t2 as int].wake_tick->0 <= now));
                            if t2 == t {
                                assert(pre.spec_tasks()[t2 as int] == old(self).spec_tasks()[t2 as int]);
                            }
                        }
                        assert forall|t2: u64| t2 < old(self).spec_tasks().len() && #[trigger] self.state_of(t2) == TaskState::Sleeping
                            implies self.spec_tasks()[t2 as int] == old(self).spec_tasks()[t2 as int] by {
                            assert(pre.state_of(t2) == TaskState::Sleeping);
                        }
                        assert forall|j: int| 0 <= j < i + 1 implies {
                            let (d2, t2) = #[trigger] old(self).spec_sleeping()[j];
                            (d2 <= now && old(self).state_of(t2) == TaskState::Sleeping
                                && old(self).spec_tasks()[t2 as int].wake_tick == Some(d2)) ==> self.state_of(t2) == TaskState::Ready
                        } by {
                            let (d2, t2) = old(self).spec_sleeping()[j];
                            if j < i && d2 <= now && old(self).state_of(t2) == TaskState::Sleeping && old(self).spec_tasks()[t2 as int].wake_tick == Some(d2) {
                                assert(pre.state_of(t2) == TaskState::Ready);
                            }
                        }
                        assert(woken_sleepers(*old(self), sl.take(i + 1), now) == prev.push(t));
                        assert(self.spec_ready() =~= old(self).spec_ready() + prev.push(t));
                        assert(kept@ =~= kept_sleepers(sl.take(i + 1), now));
                        assert forall|tt: u64| tt < old(self).spec_tasks().len() implies (#[trigger] self.state_of(tt) == TaskState::Sleeping)
                            == (old(self).state_of(tt) == TaskState::Sleeping && !prev.push(t).contains(tt)) by {
                            lemma_push_contains(prev, t, tt);
                            if tt != t {
                                assert(self.state_of(tt) == pre.state_of(tt));
                            }
                        }
                    }
                } else {
                    proof {
                        assert(woken_sleepers(*old(self), sl.take(i + 1), now) == prev);
                        assert(kept@ =~= kept_sleepers(sl.take(i + 1), now));
                        assert forall|j: int| 0 <= j < i + 1 implies {
                            let (d2, t2) = #[trigger] old(self).spec_sleeping()[j];
                            (d2 <= now && old(self).state_of(t2) == TaskState::Sleeping
                                && old(self).spec_tasks()[t2 as int].wake_tick == Some(d2)) ==> self.state_of(t2) == TaskState::Ready
                        } by {
                            if j == i {
                                let (d2, t2) = old(self).spec_sleeping()[j];
                                if d2 <= now && old(self).state_of(t2) == TaskState::Sleeping && old(self).spec_tasks()[t2 as int].wake_tick == Some(d2) {
                                    if self.state_of(t2) == TaskState::Sleeping {
                                        assert(self.spec_tasks()[t2 as int] == old(self).spec_tasks()[t2 as int]);
                                    }
                                }
                            }
                        }
                    }
                }
            }
            i = i + 1;
        }
        proof {
            assert(old(self).spec_sleeping().take(i as int) =~= old(self).spec_sleeping());
        }
        let ghost pre = *self;
        self.set_sleeping(kept);
        proof {
            assert forall|t: u64| t < old(self).spec_tasks().len() && old(self).state_of(t) != TaskState::Sleeping
                implies #[trigger] self.state_of(t) == old(self).state_of(t) by {
                assert(pre.state_of(t) == old(self).state_of(t));
            }
            assert forall|t: u64| t < old(self).spec_tasks().len() && #[trigger] old(self).state_of(t) == TaskState::Sleeping
                implies self.state_of(t) == TaskState::Sleeping || (old(self).spec_tasks()[t as int].wake_tick is Some
                    && old(self).spec_tasks()[t as int].wake_tick->0 <= self.spec_tick()) by {
                assert(pre.state_of(t) == TaskState::Sleeping || (pre.state_of(t) == TaskState::Ready
                    && old(self).spec_tasks()[t as int].wake_tick is Some && old(self).spec_tasks()[t as int].wake_tick->0 <= now));
            }
            assert forall|i: int| 0 <= i < old(self).spec_sleeping().len() implies {
                let (d, t) = #[trigger] old(self).spec_sleeping()[i];
                (d <= self.spec_tick() && old(self).state_of(t) == TaskState::Sleeping
                    && old(self).spec_tasks()[t as int].wake_tick == Some(d)) ==> self.state_of(t) == TaskState::Ready
            } by {
                let (d, t) = old(self).spec_sleeping()[i];
                if d <= self.spec_tick() && old(self).state_of(t) == TaskState::Sleeping && old(self).spec_tasks()[t as int].wake_tick == Some(d) {
                    assert(pre.state_of(t) == TaskState::Ready);
                }
            }
        }
    }

    fn advance_tick(&mut self)
        requires
            old(self).wf(),
            old(self).spec_tick() < u64::MAX,
        ensures
            final(self).wf(),
            final(self).spec_tick() == old(self).spec_tick() + 1,
            final(self).spec_tasks() == old(self).spec_tasks(),
            final(self).spec_ready() == old(self).spec_ready(),
            final(self).spec_sleeping() == old(self).spec_sleeping(),
            final(self).spec_current() == old(self).spec_current(),
            final(self).spec_frequency() == old(self).spec_frequency(),
    {
        self.tick = self.tick + 1;
        proof {
            assert forall|i: int| 0 <= i < self.spec_ready().len() implies (#[trigger] self.spec_ready()[i]) < self.spec_tasks().len()
                && self.state_of(self.spec_ready()[i]) == TaskState::Ready by {
                assert(old(self).state_of(old(self).spec_ready()[i]) == TaskState::Ready);
            }
            assert forall|i: int| 0 <= i < self.spec_sleeping().len() implies (#[trigger] self.spec_sleeping()[i]).1 < self.spec_tasks().len() by {
                assert(self.spec_sleeping()[i] == old(self).spec_sleeping()[i]);
            }
            assert forall|tid: u64| tid < self.spec_tasks().len() && #[trigger] self.state_of(tid) == TaskState::Sleeping
                implies self.spec_tasks()[tid as int].wake_tick is Some by {
                assert(old(self).state_of(tid) == TaskState::Sleeping);
            }
            if let Some(c) = self.spec_current() {
                assert(old(self).state_of(c) == TaskState::Running);
            }
        }
    }

    fn set_sleeping(&mut self, kept: Vec<(u64, u64)>)
        requires
            old(self).wf(),
            forall|j: int| 0 <= j < kept@.len() ==> (#[trigger] kept@[j]).1 < old(self).spec_tasks().len(),
        ensures
            final(self).wf(),
            final(self).spec_sleeping() == kept@,
            final(self).spec_tick() == old(self).spec_tick(),
            final(self).spec_tasks() == old(self).spec_tasks(),
            final(self).spec_ready() == old(self).spec_ready(),
            final(self).spec_current() == old(self).spec_current(),
            final(self).spec_frequency() == old(self).spec_frequency(),
    {
        self.sleeping = kept;
        proof {
            assert forall|i: int| 0 <= i < self.spec_ready().len() implies (#[trigger] self.spec_ready()[i]) < self.spec_tasks().len()
                && self.state_of(self.spec_ready()[i]) == TaskState::Ready by {
                assert(old(self).state_of(old(self).spec_ready()[i]) == TaskState::Ready);
            }
            assert forall|tid: u64| tid < self.spec_tasks().len() && #[trigger] self.state_of(tid) == TaskState::Sleeping
                implies self.spec_tasks()[tid as int].wake_tick is Some by {
                assert(old(self).state_of(tid) == TaskState::Sleeping);
            }
            if let Some(c) = self.spec_current() {
                assert(old(self).state_of(c) == TaskState::Running);
            }
        }
    }

    /// The running task, if any.
    pub fn current_task_id(&self) -> (r: Option<TaskId>)
        ensures
            r.is_some() == self.spec_current().is_some(),
            r matches Some(t) ==> self.spec_current() == Some(t.id),
    {
        match self.current {
            Some(c) => Some(TaskId { id: c }),
            None => None,
        }
    }

    /// The tick counter.
    pub fn current_tick(&self) -> (r: u64)
        ensures
            r == self.spec_tick(),
    {
        self.tick
    }

    /// State of task `id`.
    pub fn task_state(&self, id: TaskId) -> (r: Option<TaskState>)
        ensures
            id.id < self.spec_tasks().len() ==> r == Some(self.state_of(id.id)),
            id.id >= self.spec_tasks().len() ==> r is None,
    {
        let n = self.tasks.len();
        if id.id < n as u64 {
            Some(self.tasks[id.id as usize].state)
        } else {
            None
        }
    }

    /// Ready task ids, oldest arrival first.
    pub fn ready_queue(&self) -> (r: &Vec<u64>)
        ensures
            r@ == self.spec_ready(),
    {
        &self.ready
    }
}


/// Tasks waiting for an event, first come first served.
pub struct WaitQueue {
    waiters: Vec<u64>,
}

impl WaitQueue {
    pub closed spec fn spec_waiters(&self) -> Seq<u64> {
        self.waiters@
    }

    pub fn new() -> (r: WaitQueue)
        ensures
            r.spec_waiters().len() == 0,
    {
        WaitQueue { waiters: Vec::new() }
    }

    /// Queues the running task and blocks it; returns the task that runs next.
    pub fn wait(&mut self, sched: &mut Scheduler) -> (r: Option<TaskId>)
        requires
            old(sched).wf(),
            old(sched).spec_current() is Some,
        ensures
            final(sched).wf(),
            final(self).spec_waiters() == old(self).spec_waiters().push(old(sched).spec_current()->0),
            final(sched).state_of(old(sched).spec_current()->0) == TaskState::Blocked,
            old(sched).sleepers_kept(final(sched)),
    {
        let c = match sched.current_task_id() {
            Some(c) => c,
            None => {
                return None;
            },
        };
        self.waiters.push(c.id);
        sched.block_current_task()
    }

    /// Wakes the task that has waited longest; returns whether there was one.
    pub fn wake_one(&mut self, sched: &mut Scheduler) -> (r: bool)
        requires
            old(sched).wf(),
        ensures
            final(sched).wf(),
            old(sched).sleepers_kept(final(sched)),
            r == (old(self).spec_waiters().len() > 0),
            r ==> final(self).spec_waiters() == old(self).spec_waiters().drop_first(),
            !r ==> final(self).spec_waiters() == old(self).spec_waiters(),
            final(sched).spec_tasks().len() == old(sched).spec_tasks().len(),
            ({
                let woken = r && old(self).spec_waiters()[0] < old(sched).spec_tasks().len()
                    && old(sched).state_of(old(self).spec_waiters()[0]) == TaskState::Blocked;
                &&& woken ==> final(sched).spec_ready() == old(sched).spec_ready().push(old(self).spec_waiters()[0])
                &&& !woken ==> final(sched).spec_ready() == old(sched).spec_ready()
                &&& forall|t: u64| t < old(sched).spec_tasks().len() ==> #[trigger] final(sched).state_of(t)
                    == if woken && t == old(self).spec_waiters()[0] { TaskState::Ready } else { old(sched).state_of(t) }
            }),
    {
        if self.waiters.len() == 0 {
            return false;
        }
        let id = self.waiters.remove(0);
        proof {
            assert(self.waiters@ =~= old(self).spec_waiters().drop_first());
        }
        sched.unblock_task(TaskId { id });
        true
    }

    /// Wakes every waiting task, longest waiting first: each that is still
    /// blocked becomes ready and joins the tail of the ready queue.
    pub fn wake_all(&mut self, sched: &mut Scheduler)
        requires
            old(sched).wf(),
        ensures
            final(sched).wf(),
            final(self).spec_waiters().len() == 0,
            final(sched).spec_tasks().len() == old(sched).spec_tasks().len(),
            final(sched).spec_ready() == old(sched).spec_ready() + woken_in_order(*old(sched), old(self).spec_waiters()),
            forall|t: u64| t < old(sched).spec_tasks().len() ==> #[trigger] final(sched).state_of(t)
                == if woken_in_order(*old(sched), old(self).spec_waiters()).contains(t) { TaskState::Ready } else { old(sched).state_of(t) },
    {
        let ghost ow = old(self).spec_waiters();
        let ghost os = *old(sched);
        let ghost mut i: int = 0;
        proof {
            assert(ow.take(0) =~= Seq::<u64>::empty());
            assert(old(sched).spec_ready() + Seq::<u64>::empty() =~= old(sched).spec_ready());
            assert(ow.skip(0) =~= ow);
        }
        while self.waiters.len() > 0
            invariant
                0 <= i <= ow.len(),
                self.spec_waiters() == ow.skip(i),
                sched.wf(),
                sched.spec_tasks().len() == os.spec_tasks().len(),
                sched.spec_ready() == os.spec_ready() + woken_in_order(os, ow.take(i)),
                forall|t: u64| t < os.spec_tasks().len() ==> #[trigger] sched.state_of(t)
                    == if woken_in_order(os, ow.take(i)).contains(t) { TaskState::Ready } else { os.state_of(t) },
            decreases self.spec_waiters().len(),
        {
            let ghost w = ow[i];
            let ghost pre = *sched;
            proof {
                assert(ow.skip(i)[0] == w);
                assert(ow.take(i + 1).drop_last() =~= ow.take(i));
                assert(ow.take(i + 1).last() == w);
            }
            self.wake_one(sched);
            proof {
                let prev = woken_in_order(os, ow.take(i));
                let wk = w < os.spec_tasks().len() && os.state_of(w) == TaskState::Blocked && !prev.contains(w);
                if w < os.spec_tasks().len() {
                    assert((pre.state_of(w) == TaskState::Blocked) == wk) by {
                        if prev.contains(w) {
                            lemma_woken_blocked(os, ow.take(i), w);
                        }
                    }
                }
                if wk {
                    assert(woken_in_order(os, ow.take(i + 1)) == prev.push(w));
                    assert(sched.spec_ready() =~= os.spec_ready() + prev.push(w));
                } else {
                    assert(woken_in_order(os, ow.take(i + 1)) == prev);
                }
                assert forall|t: u64| t < os.spec_tasks().len() implies #[trigger] sched.state_of(t)
                    == if woken_in_order(os, ow.take(i + 1)).contains(t) { TaskState::Ready } else { os.state_of(t) } by {
                    assert(pre.state_of(t) == if prev.contains(t) { TaskState::Ready } else { os.state_of(t) });
                    if wk {
                        assert(prev.push(w).contains(t) == (prev.contains(t) || t == w)) by {
                            if t == w {
                                assert(prev.push(w)[prev.len() as int] == w);
                            }
                            if prev.contains(t) {
                                let j = choose|j: int| 0 <= j < prev.len() && prev[j] == t;
                                assert(prev.push(w)[j] == t);
                            }
                            if prev.push(w).contains(t) && t != w {
                                let j = choose|j: int| 0 <= j < prev.push(w).len() && prev.push(w)[j] == t;
                                assert(prev[j] == t);
                            }
                        }
                    }
                }
                assert(ow.skip(i + 1) =~= ow.skip(i).drop_first());
                i = i + 1;
            }
        }
        proof {
            assert(self.spec_waiters().len() == 0);
            assert(i == ow.len());
            assert(ow.take(i) =~= ow);
        }
    }
}

/// The waiters of `w` that a pass waking them in order makes ready: those
/// blocked at the start, each once, in waiting order.
pub open spec fn woken_in_order(s: Scheduler, w: Seq<u64>) -> Seq<u64>
    decreases w.len(),
{
    if w.len() == 0 {
        Seq::empty()
    } else {
        let prev = woken_in_order(s, w.drop_last());
        let t = w.last();
        if t < s.spec_tasks().len() && s.state_of(t) == TaskState::Blocked && !prev.contains(t) {
            prev.push(t)
        } else {
            prev
        }
    }
}

/// Every task a wake pass makes ready was blocked at the start.
pub proof fn lemma_woken_blocked(s: Scheduler, w: Seq<u64>, t: u64)
    requires
        woken_in_order(s, w).contains(t),
    ensures
        t < s.spec_tasks().len() && s.state_of(t) == TaskState::Blocked,
    decreases w.len(),
{
    if w.len() > 0 {
        let prev = woken_in_order(s, w.drop_last());
        if prev.contains(t) {
            lemma_woken_blocked(s, w.drop_last(), t);
        } else {
            let j = choose|j: int| 0 <= j < woken_in_order(s, w).len() && woken_in_order(s, w)[j] == t;
            if woken_in_order(s, w) == prev {
                assert(prev[j] == t);
            } else {
                if j < prev.len() {
                    assert(prev[j] == t);
                }
            }
        }
    }
}

/// How a call to `BlockingMutex::lock` ended.
#[derive(Debug, Clone, Copy, PartialEq, Eq, Structural)]
pub enum LockOutcome {
    /// The caller holds the lock.
    Acquired,
    /// The lock was held: the caller is blocked on the mutex's wait queue and
    /// tries again once woken; `next` runs meanwhile.
    Blocked { next: Option<TaskId> },
}

/// A lock that parks contending tasks instead of spinning.
pub struct BlockingMutex {
    locked: bool,
    waiters: WaitQueue,
}

impl BlockingMutex {
    pub closed spec fn spec_locked(&self) -> bool {
        self.locked
    }

    pub closed spec fn spec_waiters(&self) -> Seq<u64> {
        self.waiters.spec_waiters()
    }

    pub fn new() -> (r: BlockingMutex)
        ensures
            !r.spec_locked(),
            r.spec_waiters().len() == 0,
    {
        BlockingMutex { locked: false, waiters: WaitQueue::new() }
    }

    pub fn is_locked(&self) -> (r: bool)
        ensures
            r == self.spec_locked(),
    {
        self.locked
    }

    /// Takes the lock if it is free; never waits.
    pub fn try_lock(&mut self) -> (r: bool)
        ensures
            r == !old(self).spec_locked(),
            final(self).spec_locked(),
            final(self).spec_waiters() == old(self).spec_waiters(),
    {
        if self.locked {
            false
        } else {
            self.locked = true;
            true
        }
    }

    /// Takes the lock, or parks the running task on the wait queue.
    pub fn lock(&mut self, sched: &mut Scheduler) -> (r: LockOutcome)
        requires
            old(sched).wf(),
            old(sched).spec_current() is Some,
        ensures
            final(sched).wf(),
            final(self).spec_locked(),
            !old(self).spec_locked() ==> r == LockOutcome::Acquired && final(self).spec_waiters() == old(self).spec_waiters()
                && final(sched).spec_ready() == old(sched).spec_ready(),
            old(self).spec_locked() ==> r is Blocked && final(self).spec_waiters() == old(self).spec_waiters().push(old(sched).spec_current()->0)
                && final(sched).state_of(old(sched).spec_current()->0) == TaskState::Blocked,
    {
        if self.try_lock() {
            LockOutcome::Acquired
        } else {
            let next = self.waiters.wait(sched);
            LockOutcome::Blocked { next }
        }
    }

    /// Releases the lock and wakes at most one waiter, the one that waited longest.
    pub fn unlock(&mut self, sched: &mut Scheduler)
        requires
            old(sched).wf(),
        ensures
            final(sched).wf(),
            !final(self).spec_locked(),
            old(self).spec_waiters().len() > 0 ==> final(self).spec_waiters() == old(self).spec_waiters().drop_first(),
            old(self).spec_waiters().len() == 0 ==> final(self).spec_waiters() == old(self).spec_waiters()
                && final(sched).spec_ready() == old(sched).spec_ready(),
            ({
                let woken = old(self).spec_waiters().len() > 0 && old(self).spec_waiters()[0] < old(sched).spec_tasks().len()
                    && old(sched).state_of(old(self).spec_waiters()[0]) == TaskState::Blocked;
                &&& woken ==> final(sched).spec_ready() == old(sched).spec_ready().push(old(self).spec_waiters()[0])
                &&& !woken ==> final(sched).spec_ready() == old(sched).spec_ready()
                &&& forall|t: u64| t < old(sched).spec_tasks().len() ==> #[trigger] final(sched).state_of(t)
                    == if woken && t == old(self).spec_waiters()[0] { TaskState::Ready } else { old(sched).state_of(t) }
            }),
    {
        self.locked = false;
        self.waiters.wake_one(sched);
    }
}

} // verus!
