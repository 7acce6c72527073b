//! Round-robin scheduling of eight task slots, switched from the timer
//! interrupt. Slot 0 is the kernel's own (idle) task.

use vstd::prelude::*;

verus! {

pub const MAX_TASKS: usize = 8;
pub const STACK_SIZE: u64 = 32768;
/// Words of the initial interrupt frame of a new task.
pub const FRAME_WORDS: usize = 20;

#[derive(Clone, Copy, Debug, PartialEq, Eq, Structural)]
pub enum TaskState {
    Free,
    Ready,
    Running,
}

impl TaskState {
    pub open spec fn name_spec(self) -> &'static str {
        match self {
            TaskState::Free => "Free",
            TaskState::Ready => "Ready",
            TaskState::Running => "Run",
        }
    }

    /// The name shown in the task list.
    pub fn name(self) -> (r: &'static str)
        ensures
            r == self.name_spec(),
    {
        match self {
            TaskState::Free => "Free",
            TaskState::Ready => "Ready",
            TaskState::Running => "Run",
        }
    }
}

/// A task slot: saved stack pointer and state.
#[derive(Clone, Copy, Debug, PartialEq, Eq, Structural)]
pub struct Task {
    pub rsp: u64,
    pub state: TaskState,
}

impl Task {
    /// A free slot.
    pub fn new() -> (r: Self)
        ensures
            r.rsp == 0,
            r.state == TaskState::Free,
    {
        Task { rsp: 0, state: TaskState::Free }
    }
}

/// The word at `stack_top - 8 * (k + 1)` of a new task's first frame, as the
/// timer interrupt's return path pops it: SS, RSP, RFLAGS (interrupts on),
/// CS, RIP, then fifteen zeroed general registers.
pub open spec fn frame_word(entry: u64, stack_top: u64, k: int) -> u64 {
    if k == 0 {
        0x10
    } else if k == 1 {
        (stack_top - 8) as u64
    } else if k == 2 {
        0x200
    } else if k == 3 {
        0x08
    } else if k == 4 {
        entry
    } else {
        0
    }
}

/// The first frame of a task starting at `entry` with its stack ending at
/// `stack_top`, word `k` going at `stack_top - 8 * (k + 1)`.
pub fn initial_frame(entry: u64, stack_top: u64) -> (r: Vec<u64>)
    requires
        stack_top >= 8 * FRAME_WORDS,
    ensures
        r@.len() == FRAME_WORDS,
        forall|k: int| 0 <= k < FRAME_WORDS ==> r@[k] == frame_word(entry, stack_top, k),
{
    let mut f: Vec<u64> = Vec::new();
    f.push(0x10);
    f.push(stack_top - 8);
    f.push(0x200);
    f.push(0x08);
    f.push(entry);
    let mut k: usize = 5;
    while k < FRAME_WORDS
        invariant
            5 <= k <= FRAME_WORDS,
            f@.len() == k,
            stack_top >= 8 * FRAME_WORDS,
            forall|j: int| 0 <= j < k ==> f@[j] == frame_word(entry, stack_top, j),
        decreases FRAME_WORDS - k,
    {
        f.push(0);
        k = k + 1;
    }
    f
}

/// The first slot after `cur`, going round, that is ready (at most a full
/// round, ending at `cur` itself), counting from step `k`.
pub open spec fn ready_from(st: Seq<TaskState>, cur: int, k: int) -> Option<int>
    decreases MAX_TASKS + 1 - k,
{
    if k > MAX_TASKS || k < 1 {
        None
    } else if st[(cur + k) % (MAX_TASKS as int)] == TaskState::Ready {
        Some((cur + k) % (MAX_TASKS as int))
    } else {
        ready_from(st, cur, k + 1)
    }
}

/// The eight task slots, the running slot and where each slot's stack ends.
pub struct Scheduler {
    tasks: Vec<Task>,
    stack_tops: Vec<u64>,
    current: usize,
}

impl Scheduler {
    pub closed spec fn wf(&self) -> bool {
        &&& self.tasks@.len() == MAX_TASKS
        &&& self.stack_tops@.len() == MAX_TASKS
        &&& self.current < MAX_TASKS
        &&& forall|i: int| 0 <= i < MAX_TASKS ==> #[trigger] self.stack_tops@[i] >= 8 * FRAME_WORDS
    }

    pub closed spec fn states(&self) -> Seq<TaskState> {
        self.tasks@.map_values(|t: Task| t.state)
    }

    pub closed spec fn rsps(&self) -> Seq<u64> {
        self.tasks@.map_values(|t: Task| t.rsp)
    }

    pub closed spec fn current(&self) -> int {
        self.current as int
    }

    pub closed spec fn stack_tops(&self) -> Seq<u64> {
        self.stack_tops@
    }

    /// All slots free, slot 0 current; slot `i`'s stack ends at
    /// `stack_tops[i]`.
    pub fn new(stack_tops: [u64; 8]) -> (r: Self)
        requires
            forall|i: int| 0 <= i < MAX_TASKS ==> #[trigger] stack_tops@[i] >= 8 * FRAME_WORDS,
        ensures
            r.wf(),
            r.states() == Seq::new(MAX_TASKS as nat, |i: int| TaskState::Free),
            r.rsps() == Seq::new(MAX_TASKS as nat, |i: int| 0u64),
            r.current() == 0,
            r.stack_tops() == stack_tops@,
    {
        let mut tasks: Vec<Task> = Vec::new();
        let mut tops: Vec<u64> = Vec::new();
        let mut i: usize = 0;
        while i < MAX_TASKS
            invariant
                i <= MAX_TASKS,
                tasks@.len() == i,
                tops@ == stack_tops@.subrange(0, i as int),
                forall|j: int| 0 <= j < i ==> tasks@[j] == (Task { rsp: 0, state: TaskState::Free }),
            decreases MAX_TASKS - i,
        {
            tasks.push(Task::new());
            tops.push(stack_tops[i]);
            i = i + 1;
            assert(tops@ =~= stack_tops@.subrange(0, i as int));
        }
        let r = Scheduler { tasks, stack_tops: tops, current: 0 };
        assert(r.states() =~= Seq::new(MAX_TASKS as nat, |i: int| TaskState::Free));
        assert(r.rsps() =~= Seq::new(MAX_TASKS as nat, |i: int| 0u64));
        assert(tops@ =~= stack_tops@);
        r
    }

    fn set_task(&mut self, i: usize, t: Task)
        requires
            old(self).wf(),
            i < MAX_TASKS,
        ensures
            final(self).wf(),
            final(self).tasks@ == old(self).tasks@.update(i as int, t),
            final(self).stack_tops@ == old(self).stack_tops@,
            final(self).current == old(self).current,
            final(self).states() == old(self).states().update(i as int, t.state),
            final(self).rsps() == old(self).rsps().update(i as int, t.rsp),
    {
        self.tasks.set(i, t);
        assert(self.states() =~= old(self).states().update(i as int, t.state));
        assert(self.rsps() =~= old(self).rsps().update(i as int, t.rsp));
    }
}

/// Marks the kernel's task (slot 0) ready.
pub fn init(s: &mut Scheduler)
    requires
        old(s).wf(),
    ensures
        final(s).wf(),
        final(s).states() == old(s).states().update(0, TaskState::Ready),
        final(s).rsps() == old(s).rsps(),
        final(s).current() == old(s).current(),
        final(s).stack_tops() == old(s).stack_tops(),
{
    let t = Task { rsp: s.tasks[0].rsp, state: TaskState::Ready };
    s.set_task(0, t);
    assert(s.rsps() =~= old(s).rsps());
}

/// Gives a new task starting at `entry` the first free slot among 1 to 7:
/// its saved stack pointer is below the `initial_frame` the caller puts at
/// the top of the slot's stack, and it is ready. Returns the slot, or -1.
pub fn spawn(s: &mut Scheduler, entry: u64) -> (r: i32)
    requires
        old(s).wf(),
    ensures
        final(s).wf(),
        final(s).current() == old(s).current(),
        final(s).stack_tops() == old(s).stack_tops(),
        r == -1 <==> forall|i: int| 1 <= i < MAX_TASKS ==> old(s).states()[i] != TaskState::Free,
        r != -1 ==> {
            &&& 1 <= r < MAX_TASKS
            &&& old(s).states()[r as int] == TaskState::Free
            &&& forall|j: int| 1 <= j < r ==> old(s).states()[j] != TaskState::Free
            &&& final(s).states() == old(s).states().update(r as int, TaskState::Ready)
            &&& final(s).rsps() == old(s).rsps().update(r as int, (old(s).stack_tops()[r as int] - 8 * FRAME_WORDS) as u64)
        },
        r == -1 ==> final(s).states() == old(s).states() && final(s).rsps() == old(s).rsps(),
{
    let mut i: usize = 1;
    while i < MAX_TASKS
        invariant
            s.wf(),
            1 <= i <= MAX_TASKS,
            s.tasks@ == old(s).tasks@,
            s.stack_tops@ == old(s).stack_tops@,
            s.current == old(s).current,
            forall|j: int| 1 <= j < i ==> old(s).states()[j] != TaskState::Free,
        decreases MAX_TASKS - i,
    {
        if s.tasks[i].state == TaskState::Free {
            let top = s.stack_tops[i];
            let t = Task { rsp: top - 8 * (FRAME_WORDS as u64), state: TaskState::Ready };
            s.set_task(i, t);
            return i as i32;
        }
        i = i + 1;
    }
    -1
}

/// One row of the task list: slot, state name and saved stack pointer, for
/// every slot in use.
pub fn print_tasks(s: &Scheduler) -> (r: Vec<(usize, &'static str, u64)>)
    requires
        s.wf(),
    ensures
        r@ == task_rows(s.states(), s.rsps(), MAX_TASKS as int),
{
    let mut rows: Vec<(usize, &'static str, u64)> = Vec::new();
    let mut i: usize = 0;
    while i < MAX_TASKS
        invariant
            s.wf(),
            i <= MAX_TASKS,
            rows@ == task_rows(s.states(), s.rsps(), i as int),
        decreases MAX_TASKS - i,
    {
        let t = s.tasks[i];
        if t.state != TaskState::Free {
            rows.push((i, t.state.name(), t.rsp));
        }
        i = i + 1;
    }
    rows
}

/// The task-list rows of the first `n` slots.
pub open spec fn task_rows(st: Seq<TaskState>, rsp: Seq<u64>, n: int) -> Seq<(usize, &'static str, u64)>
    decreases n,
{
    if n <= 0 {
        Seq::empty()
    } else if st[n - 1] != TaskState::Free {
        task_rows(st, rsp, n - 1).push(((n - 1) as usize, st[n - 1].name_spec(), rsp[n - 1]))
    } else {
        task_rows(st, rsp, n - 1)
    }
}

/// The switch on a timer tick: the current task's stack pointer is saved and
/// a running current task becomes ready; the next ready slot after it, going
/// round, runs next and its saved stack pointer is returned. With none ready
/// the current task runs on with `current_rsp`.
pub open spec fn schedule_states(st: Seq<TaskState>, cur: int) -> Seq<TaskState> {
    let st1 = if st[cur] == TaskState::Running { st.update(cur, TaskState::Ready) } else { st };
    match ready_from(st1, cur, 1) {
        Some(n) => st1.update(n, TaskState::Running),
        None => st1.update(cur, TaskState::Running),
    }
}

pub open spec fn schedule_next(st: Seq<TaskState>, cur: int) -> int {
    let st1 = if st[cur] == TaskState::Running { st.update(cur, TaskState::Ready) } else { st };
    match ready_from(st1, cur, 1) {
        Some(n) => n,
        None => cur,
    }
}

/// Switches tasks on a timer tick (see `schedule_states`).
pub fn schedule(s: &mut Scheduler, current_rsp: u64) -> (r: u64)
    requires
        old(s).wf(),
    ensures
        final(s).wf(),
        final(s).stack_tops() == old(s).stack_tops(),
        final(s).states() == schedule_states(old(s).states(), old(s).current()),
        final(s).current() == schedule_next(old(s).states(), old(s).current()),
        final(s).rsps() == old(s).rsps().update(old(s).current(), current_rsp),
        r == final(s).rsps()[final(s).current()],
{
    let cur = s.current;
    let st = if s.tasks[cur].state == TaskState::Running { TaskState::Ready } else { s.tasks[cur].state };
    s.set_task(cur, Task { rsp: current_rsp, state: st });
    let ghost st1 = s.states();
    let mut next = (cur + 1) % MAX_TASKS;
    let mut tried: usize = 0;
    while tried < MAX_TASKS
        invariant
            s.wf(),
            s.current == cur,
            cur == old(s).current,
            st1 == s.states(),
            s.stack_tops@ == old(s).stack_tops@,
            st1 == if old(s).states()[cur as int] == TaskState::Running {
                old(s).states().update(cur as int, TaskState::Ready)
            } else {
                old(s).states()
            },
            s.rsps() == old(s).rsps().update(cur as int, current_rsp),
            tried <= MAX_TASKS,
            next == (cur + tried + 1) % (MAX_TASKS as int),
            ready_from(st1, cur as int, 1) == ready_from(st1, cur as int, tried + 1),
        decreases MAX_TASKS - tried,
    {
        if s.tasks[next].state == TaskState::Ready {
            let rsp = s.tasks[next].rsp;
            s.set_task(next, Task { rsp, state: TaskState::Running });
            s.current = next;
            assert(s.rsps() =~= old(s).rsps().update(cur as int, current_rsp));
            return rsp;
        }
        next = (next + 1) % MAX_TASKS;
        tried = tried + 1;
    }
    let rsp = s.tasks[cur].rsp;
    s.set_task(cur, Task { rsp, state: TaskState::Running });
    assert(s.rsps() =~= old(s).rsps().update(cur as int, current_rsp));
    current_rsp
}


proof fn lemma_ready_skips(st: Seq<TaskState>, cur: int, k: int, target: int, m: int)
    requires
        st.len() == MAX_TASKS,
        0 <= cur < MAX_TASKS,
        1 <= k <= m <= MAX_TASKS,
        (cur + m) % (MAX_TASKS as int) == target,
        st[target] == TaskState::Ready,
        forall|j: int| 0 <= j < MAX_TASKS && j != target ==> st[j] != TaskState::Ready,
    ensures
        ready_from(st, cur, k) == Some(target),
    decreases MAX_TASKS + 1 - k,
{
    if st[(cur + k) % (MAX_TASKS as int)] != TaskState::Ready {
        assert(k != m);
        lemma_ready_skips(st, cur, k + 1, target, m);
    }
}

/// Two tasks take turns: with only slots `a` and `b` in use, `a` running and
/// `b` ready, a tick switches to `b` and the next tick back to `a`, leaving
/// the slots as they were.
pub proof fn two_tasks_alternate(st: Seq<TaskState>, a: int, b: int)
    requires
        st.len() == MAX_TASKS,
        0 <= a < MAX_TASKS,
        0 <= b < MAX_TASKS,
        a != b,
        st[a] == TaskState::Running,
        st[b] == TaskState::Ready,
        forall|i: int| 0 <= i < MAX_TASKS && i != a && i != b ==> st[i] == TaskState::Free,
    ensures
        schedule_next(st, a) == b,
        schedule_next(schedule_states(st, a), b) == a,
        schedule_states(schedule_states(st, a), b) == st,
{
    let st1 = st.update(a, TaskState::Ready);
    let mb = if b > a { b - a } else { b + MAX_TASKS - a };
    assert((a + mb) % (MAX_TASKS as int) == b);
    let only_b = st1.update(a, TaskState::Free);
    lemma_ready_skips(only_b, a, 1, b, mb);
    assert(ready_from(st1, a, 1) == Some(b)) by {
        lemma_ready_from_ignores(st1, only_b, a, 1, b, mb);
    }
    let st2 = st1.update(b, TaskState::Running);
    let st3 = st2.update(b, TaskState::Ready);
    let ma = if a > b { a - b } else { a + MAX_TASKS - b };
    assert((b + ma) % (MAX_TASKS as int) == a);
    let only_a = st3.update(b, TaskState::Free);
    lemma_ready_skips(only_a, b, 1, a, ma);
    assert(ready_from(st3, b, 1) == Some(a)) by {
        lemma_ready_from_ignores(st3, only_a, b, 1, a, ma);
    }
    assert(st3.update(a, TaskState::Running) =~= st);
}

/// A search that reaches `target` before the slot where `st` and `other`
/// differ gives the same answer on both.
proof fn lemma_ready_from_ignores(st: Seq<TaskState>, other: Seq<TaskState>, cur: int, k: int, target: int, m: int)
    requires
        st.len() == MAX_TASKS,
        other.len() == MAX_TASKS,
        0 <= cur < MAX_TASKS,
        1 <= k <= m < MAX_TASKS,
        (cur + m) % (MAX_TASKS as int) == target,
        ready_from(other, cur, k) == Some(target),
        other[target] == TaskState::Ready,
        forall|j: int| 0 <= j < MAX_TASKS && j != cur ==> st[j] == other[j],
    ensures
        ready_from(st, cur, k) == Some(target),
    decreases MAX_TASKS + 1 - k,
{
    let slot = (cur + k) % (MAX_TASKS as int);
    assert(slot != cur);
    assert(st[slot] == other[slot]);
    if other[slot] != TaskState::Ready {
        assert(ready_from(other, cur, k) == ready_from(other, cur, k + 1));
        assert(ready_from(st, cur, k) == ready_from(st, cur, k + 1));
        if k < m {
            lemma_ready_from_ignores(st, other, cur, k + 1, target, m);
        } else {
            assert((cur + k) % (MAX_TASKS as int) == target);
        }
    }
}

/// The slot states and the running slot after `n` timer ticks.
pub open spec fn after_ticks(st: Seq<TaskState>, cur: int, n: nat) -> (Seq<TaskState>, int)
    decreases n,
{
    if n == 0 {
        (st, cur)
    } else {
        after_ticks(schedule_states(st, cur), schedule_next(st, cur), (n - 1) as nat)
    }
}

/// How many slots `b` lies ahead of `a`, going round.
pub open spec fn ahead(a: int, b: int) -> int {
    (b - a + MAX_TASKS) % (MAX_TASKS as int)
}

/// A ready slot `m` steps ahead is found by a search from step `k` at or
/// before it.
proof fn lemma_ready_found(st: Seq<TaskState>, cur: int, k: int, m: int)
    requires
        st.len() == MAX_TASKS,
        0 <= cur < MAX_TASKS,
        1 <= k <= m < MAX_TASKS,
        st[(cur + m) % (MAX_TASKS as int)] == TaskState::Ready,
    ensures
        ready_from(st, cur, k) is Some,
        0 <= ready_from(st, cur, k)->0 < MAX_TASKS,
        k <= ahead(cur, ready_from(st, cur, k)->0) <= m,
    decreases MAX_TASKS + 1 - k,
{
    if st[(cur + k) % (MAX_TASKS as int)] == TaskState::Ready {
        assert(ready_from(st, cur, k) == Some((cur + k) % (MAX_TASKS as int)));
        assert(ahead(cur, (cur + k) % (MAX_TASKS as int)) == k);
    } else {
        assert(k != m);
        lemma_ready_found(st, cur, k + 1, m);
    }
}

/// A ready slot `m` steps ahead of the running one runs within `m` ticks.
proof fn lemma_reaches(st: Seq<TaskState>, cur: int, t: int, m: int)
    requires
        st.len() == MAX_TASKS,
        0 <= cur < MAX_TASKS,
        0 <= t < MAX_TASKS,
        1 <= m < MAX_TASKS,
        ahead(cur, t) == m,
        st[t] == TaskState::Ready,
    ensures
        exists|n: nat| #![trigger after_ticks(st, cur, n)] 1 <= n <= m && after_ticks(st, cur, n).1 == t,
    decreases m,
{
    let st1 = if st[cur] == TaskState::Running { st.update(cur, TaskState::Ready) } else { st };
    assert(t != cur);
    assert(st1[t] == TaskState::Ready);
    assert((cur + m) % (MAX_TASKS as int) == t);
    lemma_ready_found(st1, cur, 1, m);
    let next = ready_from(st1, cur, 1)->0;
    let j = ahead(cur, next);
    let st2 = st1.update(next, TaskState::Running);
    assert(schedule_next(st, cur) == next);
    assert(schedule_states(st, cur) == st2);
    assert(after_ticks(st, cur, 1) == after_ticks(st2, next, 0));
    if j == m {
        assert(next == t);
        assert(after_ticks(st, cur, 1).1 == t);
    } else {
        assert(next != t);
        assert(ahead(next, t) == m - j);
        lemma_reaches(st2, next, t, m - j);
        let n = choose|n: nat| #![trigger after_ticks(st2, next, n)] 1 <= n <= m - j && after_ticks(st2, next, n).1 == t;
        assert(after_ticks(st, cur, (n + 1) as nat) == after_ticks(st2, next, n));
        assert(after_ticks(st, cur, (n + 1) as nat).1 == t);
    }
}

/// Round robin: a ready task is not passed over. If slot `t` is ready, it
/// is the running slot after at most as many ticks as it lies slots ahead of
/// the running one, so within a round of eight.
pub proof fn ready_task_runs_within_a_round(st: Seq<TaskState>, cur: int, t: int)
    requires
        st.len() == MAX_TASKS,
        0 <= cur < MAX_TASKS,
        0 <= t < MAX_TASKS,
        t != cur,
        st[t] == TaskState::Ready,
    ensures
        exists|n: nat| #![trigger after_ticks(st, cur, n)] 1 <= n <= ahead(cur, t) && after_ticks(st, cur, n).1 == t,
{
    lemma_reaches(st, cur, t, ahead(cur, t));
}
} // verus!
