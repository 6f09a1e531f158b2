//! Task bookkeeping for green threads: task records, per-worker queues and
//! the scheduler's table of task states.

use vstd::prelude::*;
use crate::runtime::future::{AsyncState, FuturePoll};

verus! {

/// Identifier of a task.
#[derive(Debug, Clone, Copy, PartialEq, Eq, Hash, Structural)]
pub struct TaskId(pub u64);

impl TaskId {
    pub fn from_raw(raw: u64) -> (t: TaskId)
        ensures
            t.0 == raw,
    {
        TaskId(raw)
    }

    pub fn raw(&self) -> (r: u64)
        ensures
            r == self.0,
    {
        self.0
    }
}

/// State of a task.
#[derive(Debug, Clone, Copy, PartialEq, Eq, Structural)]
pub enum TaskState {
    Ready,
    Running,
    Blocked,
    Completed,
    Cancelled,
}

/// A task (green thread) record.
#[derive(Debug, Clone, Copy, PartialEq, Eq, Structural)]
pub struct Task {
    pub id: TaskId,
    pub state: TaskState,
    pub priority: u8,
    pub stack_size: usize,
    pub is_daemon: bool,
}

/// Default priority of a new task.
pub const DEFAULT_PRIORITY: u8 = 5;
/// Default stack size of a new task (1 MiB).
pub const DEFAULT_STACK_SIZE: usize = 1048576;

/// A new ready task with default priority and stack size.
pub open spec fn fresh_task(id: TaskId) -> Task {
    Task { id, state: TaskState::Ready, priority: DEFAULT_PRIORITY, stack_size: DEFAULT_STACK_SIZE, is_daemon: false }
}

impl Task {
    pub fn new(id: TaskId) -> (t: Task)
        ensures
            t == fresh_task(id),
    {
        Task { id, state: TaskState::Ready, priority: DEFAULT_PRIORITY, stack_size: DEFAULT_STACK_SIZE, is_daemon: false }
    }

    pub fn with_priority(self, priority: u8) -> (t: Task)
        ensures
            t == (Task { priority, ..self }),
    {
        Task { priority, ..self }
    }

    pub fn with_stack_size(self, size: usize) -> (t: Task)
        ensures
            t == (Task { stack_size: size, ..self }),
    {
        Task { stack_size: size, ..self }
    }

    pub fn daemon(self) -> (t: Task)
        ensures
            t == (Task { is_daemon: true, ..self }),
    {
        Task { is_daemon: true, ..self }
    }
}

/// The task queues of one worker: a local stack and a shared queue that
/// other workers may steal from.
#[derive(Debug)]
pub struct TaskQueue {
    local: Vec<Task>,
    shared: Vec<Task>,
}

impl TaskQueue {
    /// The local queue, bottom first.
    pub closed spec fn local_tasks(&self) -> Seq<Task> {
        self.local@
    }

    /// The shared queue, oldest first.
    pub closed spec fn shared_tasks(&self) -> Seq<Task> {
        self.shared@
    }

    pub fn new() -> (q: TaskQueue)
        ensures
            q.local_tasks() == Seq::<Task>::empty(),
            q.shared_tasks() == Seq::<Task>::empty(),
    {
        TaskQueue { local: Vec::new(), shared: Vec::new() }
    }

    pub fn push_local(&mut self, task: Task)
        ensures
            final(self).local_tasks() == old(self).local_tasks().push(task),
            final(self).shared_tasks() == old(self).shared_tasks(),
    {
        self.local.push(task);
    }

    /// Takes the most recently pushed local task.
    pub fn pop_local(&mut self) -> (t: Option<Task>)
        ensures
            old(self).local_tasks().len() == 0 ==> t is None && final(self).local_tasks() == old(self).local_tasks(),
            old(self).local_tasks().len() > 0 ==> t == Some(old(self).local_tasks().last())
                && final(self).local_tasks() == old(self).local_tasks().drop_last(),
            final(self).shared_tasks() == old(self).shared_tasks(),
    {
        self.local.pop()
    }

    pub fn push_shared(&mut self, task: Task)
        ensures
            final(self).shared_tasks() == old(self).shared_tasks().push(task),
            final(self).local_tasks() == old(self).local_tasks(),
    {
        self.shared.push(task);
    }

    /// Takes the most recently pushed shared task.
    pub fn steal(&mut self) -> (t: Option<Task>)
        ensures
            old(self).shared_tasks().len() == 0 ==> t is None && final(self).shared_tasks() == old(self).shared_tasks(),
            old(self).shared_tasks().len() > 0 ==> t == Some(old(self).shared_tasks().last())
                && final(self).shared_tasks() == old(self).shared_tasks().drop_last(),
            final(self).local_tasks() == old(self).local_tasks(),
    {
        self.shared.pop()
    }

    pub fn is_empty(&self) -> (b: bool)
        ensures
            b == (self.local_tasks().len() == 0),
    {
        self.local.len() == 0
    }

    pub fn len(&self) -> (n: usize)
        ensures
            n == self.local_tasks().len(),
    {
        self.local.len()
    }

    /// The local tasks, bottom first.
    pub fn iter(&self) -> (r: &[Task])
        ensures
            r@ == self.local_tasks(),
    {
        self.local.as_slice()
    }

    pub fn push_back(&mut self, task: Task)
        ensures
            final(self).local_tasks() == old(self).local_tasks().push(task),
            final(self).shared_tasks() == old(self).shared_tasks(),
    {
        self.local.push(task);
    }
}

impl Default for TaskQueue {
    fn default() -> (q: TaskQueue)
        ensures
            q.local_tasks() == Seq::<Task>::empty(),
            q.shared_tasks() == Seq::<Task>::empty(),
    {
        TaskQueue::new()
    }
}

/// Whether no two tasks in `s` share an id.
pub open spec fn ids_distinct(s: Seq<Task>) -> bool {
    forall|i: int, j: int| 0 <= i < j < s.len() ==> #[trigger] s[i].id != #[trigger] s[j].id
}

/// Whether a task with id `id` is in `s`.
pub open spec fn has_task(s: Seq<Task>, id: TaskId) -> bool {
    exists|i: int| 0 <= i < s.len() && #[trigger] s[i].id == id
}

/// The task with id `id` in `s`, if there is one.
pub open spec fn task_of(s: Seq<Task>, id: TaskId) -> Option<Task> {
    if has_task(s, id) {
        Some(s[choose|i: int| 0 <= i < s.len() && #[trigger] s[i].id == id])
    } else {
        None
    }
}

/// The state of the task with id `id` in `s`, if there is one.
pub open spec fn state_of(s: Seq<Task>, id: TaskId) -> Option<TaskState> {
    match task_of(s, id) {
        Some(t) => Some(t.state),
        None => None,
    }
}

/// The number of tasks in `s` whose state is `st`.
pub open spec fn count_state(s: Seq<Task>, st: TaskState) -> nat
    decreases s.len(),
{
    if s.len() == 0 {
        0
    } else {
        count_state(s.drop_last(), st) + (if s.last().state == st { 1nat } else { 0nat })
    }
}

/// `t` with its state set to `st` when its id is `id`.
pub open spec fn set_state_if(t: Task, id: TaskId, st: TaskState) -> Task {
    if t.id == id {
        Task { state: st, ..t }
    } else {
        t
    }
}

/// `s` with the state of the task whose id is `id` set to `st`.
pub open spec fn with_state(s: Seq<Task>, id: TaskId, st: TaskState) -> Seq<Task> {
    s.map_values(|t: Task| set_state_if(t, id, st))
}

/// In a table with distinct ids, the task found for the id at `i` is the
/// one at `i`.
pub proof fn lemma_task_of_at(s: Seq<Task>, i: int)
    requires
        ids_distinct(s),
        0 <= i < s.len(),
    ensures
        task_of(s, s[i].id) == Some(s[i]),
        state_of(s, s[i].id) == Some(s[i].state),
{
    assert(has_task(s, s[i].id));
    let k = choose|k: int| 0 <= k < s.len() && #[trigger] s[k].id == s[i].id;
    if k != i {
        if k < i {
            assert(s[k].id != s[i].id);
        } else {
            assert(s[i].id != s[k].id);
        }
    }
}

/// Setting the state of task `id` and then reading any task's state gives
/// the new state for `id`, if the table held it, and the old state for
/// every other id.
pub proof fn law_state_read_back(s: Seq<Task>, id: TaskId, st: TaskState, x: TaskId)
    requires
        ids_distinct(s),
    ensures
        ids_distinct(with_state(s, id, st)),
        state_of(with_state(s, id, st), x) == (if x == id && has_task(s, id) {
            Some(st)
        } else {
            state_of(s, x)
        }),
{
    let t = with_state(s, id, st);
    assert forall|a: int, b: int| 0 <= a < b < t.len() implies #[trigger] t[a].id != #[trigger] t[b].id by {
        assert(s[a].id != s[b].id);
    }
    if has_task(s, x) {
        let k = choose|k: int| 0 <= k < s.len() && #[trigger] s[k].id == x;
        lemma_task_of_at(s, k);
        assert(t[k].id == x);
        lemma_task_of_at(t, k);
    } else {
        assert(!has_task(t, x)) by {
            if has_task(t, x) {
                let k = choose|k: int| 0 <= k < t.len() && #[trigger] t[k].id == x;
                assert(s[k].id == x);
            }
        }
    }
}

pub proof fn lemma_count_push(s: Seq<Task>, t: Task, st: TaskState)
    ensures
        count_state(s.push(t), st) == count_state(s, st) + (if t.state == st { 1nat } else { 0nat }),
{
    assert(s.push(t).drop_last() =~= s);
}

/// Task scheduler: the table of all tasks and one queue per worker.
pub struct Scheduler {
    tasks: Vec<Task>,
    queues: Vec<TaskQueue>,
    num_workers: usize,
    running: bool,
    next_id: u64,
}

impl Scheduler {
    /// Every task spawned so far, oldest first.
    pub closed spec fn tasks(&self) -> Seq<Task> {
        self.tasks@
    }

    /// The worker queues, by worker number.
    pub closed spec fn queues(&self) -> Seq<TaskQueue> {
        self.queues@
    }

    pub closed spec fn workers(&self) -> nat {
        self.num_workers as nat
    }

    pub closed spec fn running_flag(&self) -> bool {
        self.running
    }

    /// The id the next spawned task gets.
    pub closed spec fn next_id(&self) -> u64 {
        self.next_id
    }

    pub closed spec fn wf(&self) -> bool {
        &&& ids_distinct(self.tasks@)
        &&& forall|i: int| 0 <= i < self.tasks@.len() ==> (#[trigger] self.tasks@[i]).id.0 < self.next_id
        &&& 1 <= self.next_id
        &&& self.queues@.len() == self.num_workers
    }

    /// Whether the queue of worker `w` is that of `old` with nothing changed.
    pub open spec fn same_queue(a: TaskQueue, b: TaskQueue) -> bool {
        a.local_tasks() == b.local_tasks() && a.shared_tasks() == b.shared_tasks()
    }

    /// A scheduler with `num_workers` empty queues and no tasks.
    pub fn new(num_workers: usize) -> (s: Scheduler)
        ensures
            s.wf(),
            s.tasks() == Seq::<Task>::empty(),
            s.workers() == num_workers,
            s.queues().len() == num_workers,
            forall|w: int| 0 <= w < num_workers ==> (#[trigger] s.queues()[w]).local_tasks().len() == 0
                && s.queues()[w].shared_tasks().len() == 0,
            !s.running_flag(),
            s.next_id() == 1,
    {
        let mut queues: Vec<TaskQueue> = Vec::new();
        let mut i: usize = 0;
        while i < num_workers
            invariant
                i <= num_workers,
                queues@.len() == i,
                forall|w: int| 0 <= w < i ==> (#[trigger] queues@[w]).local_tasks().len() == 0
                    && queues@[w].shared_tasks().len() == 0,
            decreases num_workers - i,
        {
            queues.push(TaskQueue::new());
            i = i + 1;
        }
        Scheduler { tasks: Vec::new(), queues, num_workers, running: false, next_id: 1 }
    }

    /// Adds a ready task with a fresh id to the table and to the shared
    /// queue of worker `id % workers`.  The closure is not run here.
    pub fn spawn<F: FnOnce() + Send + 'static>(&mut self, f: F) -> (id: TaskId)
        requires
            old(self).wf(),
            old(self).workers() > 0,
            old(self).next_id() < u64::MAX,
        ensures
            final(self).wf(),
            id.0 == old(self).next_id(),
            final(self).next_id() == old(self).next_id() + 1,
            final(self).tasks() == old(self).tasks().push(fresh_task(id)),
            !has_task(old(self).tasks(), id),
            state_of(final(self).tasks(), id) == Some(TaskState::Ready),
            final(self).workers() == old(self).workers(),
            final(self).running_flag() == old(self).running_flag(),
            final(self).queues().len() == old(self).queues().len(),
            ({
                let w = (id.0 % (old(self).workers() as u64)) as int;
                &&& final(self).queues()[w].shared_tasks() == old(self).queues()[w].shared_tasks().push(fresh_task(id))
                &&& final(self).queues()[w].local_tasks() == old(self).queues()[w].local_tasks()
                &&& forall|v: int| 0 <= v < old(self).queues().len() && v != w
                    ==> Self::same_queue(#[trigger] final(self).queues()[v], old(self).queues()[v])
            }),
    {
        self.enqueue_new()
    }

    fn enqueue_new(&mut self) -> (id: TaskId)
        requires
            old(self).wf(),
            old(self).workers() > 0,
            old(self).next_id() < u64::MAX,
        ensures
            final(self).wf(),
            id.0 == old(self).next_id(),
            final(self).next_id() == old(self).next_id() + 1,
            final(self).tasks() == old(self).tasks().push(fresh_task(id)),
            !has_task(old(self).tasks(), id),
            state_of(final(self).tasks(), id) == Some(TaskState::Ready),
            final(self).workers() == old(self).workers(),
            final(self).running_flag() == old(self).running_flag(),
            final(self).queues().len() == old(self).queues().len(),
            ({
                let w = (id.0 % (old(self).workers() as u64)) as int;
                &&& final(self).queues()[w].shared_tasks() == old(self).queues()[w].shared_tasks().push(fresh_task(id))
                &&& final(self).queues()[w].local_tasks() == old(self).queues()[w].local_tasks()
                &&& forall|v: int| 0 <= v < old(self).queues().len() && v != w
                    ==> Self::same_queue(#[trigger] final(self).queues()[v], old(self).queues()[v])
            }),
    {
        let id = TaskId(self.next_id);
        let ghost old_tasks = self.tasks@;
        assert(!has_task(old_tasks, id)) by {
            if has_task(old_tasks, id) {
                let k = choose|k: int| 0 <= k < old_tasks.len() && #[trigger] old_tasks[k].id == id;
                assert(old_tasks[k].id.0 < self.next_id);
            }
        }
        self.tasks.push(Task::new(id));
        self.next_id = self.next_id + 1;
        proof {
            let s = self.tasks@;
            assert(s.len() == old_tasks.len() + 1);
            assert forall|i: int, j: int| 0 <= i < j < s.len() implies #[trigger] s[i].id != #[trigger] s[j].id by {
                if j == s.len() - 1 {
                    assert(old_tasks[i].id.0 < id.0);
                } else {
                    assert(old_tasks[i].id != old_tasks[j].id);
                }
            }
            lemma_task_of_at(s, s.len() - 1);
        }
        let n: u64 = self.num_workers as u64;
        let w: usize = (id.0 % n) as usize;
        self.queues[w].push_shared(Task::new(id));
        id
    }

    /// The state of the task with id `id`, if the table holds it.
    pub fn task_state(&self, id: TaskId) -> (r: Option<TaskState>)
        requires
            self.wf(),
        ensures
            r == state_of(self.tasks(), id),
    {
        let mut i: usize = 0;
        while i < self.tasks.len()
            invariant
                self.wf(),
                i <= self.tasks@.len(),
                forall|k: int| 0 <= k < i ==> (#[trigger] self.tasks@[k]).id != id,
            decreases self.tasks@.len() - i,
        {
            if self.tasks[i].id == id {
                proof {
                    lemma_task_of_at(self.tasks@, i as int);
                }
                return Some(self.tasks[i].state);
            }
            i = i + 1;
        }
        None
    }

    fn set_state(&mut self, id: TaskId, st: TaskState)
        requires
            old(self).wf(),
        ensures
            final(self).wf(),
            final(self).tasks() == with_state(old(self).tasks(), id, st),
            final(self).queues() == old(self).queues(),
            final(self).workers() == old(self).workers(),
            final(self).running_flag() == old(self).running_flag(),
            final(self).next_id() == old(self).next_id(),
    {
        let ghost old_tasks = self.tasks@;
        let mut i: usize = 0;
        while i < self.tasks.len()
            invariant
                self.tasks@.len() == old_tasks.len(),
                i <= old_tasks.len(),
                forall|k: int| 0 <= k < i ==> self.tasks@[k] == set_state_if(old_tasks[k], id, st),
                forall|k: int| i <= k < old_tasks.len() ==> self.tasks@[k] == old_tasks[k],
                self.queues@.len() == self.num_workers,
                1 <= self.next_id,
                self.queues == old(self).queues,
                self.num_workers == old(self).num_workers,
                self.running == old(self).running,
                self.next_id == old(self).next_id,
                old_tasks == old(self).tasks@,
            decreases old_tasks.len() - i,
        {
            let t = self.tasks[i];
            if t.id == id {
                self.tasks.set(i, Task { state: st, ..t });
            }
            i = i + 1;
        }
        proof {
            let s = self.tasks@;
            assert(s =~= with_state(old_tasks, id, st));
            assert forall|a: int, b: int| 0 <= a < b < s.len() implies #[trigger] s[a].id != #[trigger] s[b].id by {
                assert(old_tasks[a].id != old_tasks[b].id);
            }
            assert forall|a: int| 0 <= a < s.len() implies (#[trigger] s[a]).id.0 < self.next_id by {
                assert(old_tasks[a].id.0 < self.next_id);
            }
        }
    }

    /// Marks the task blocked (waiting for I/O or a channel); no effect on
    /// an unknown id.
    pub fn block_task(&mut self, id: TaskId)
        requires
            old(self).wf(),
        ensures
            final(self).wf(),
            final(self).tasks() == with_state(old(self).tasks(), id, TaskState::Blocked),
            final(self).queues() == old(self).queues(),
            final(self).workers() == old(self).workers(),
            final(self).running_flag() == old(self).running_flag(),
            final(self).next_id() == old(self).next_id(),
    {
        self.set_state(id, TaskState::Blocked)
    }

    /// Marks the task ready again; no effect on an unknown id.
    pub fn unblock_task(&mut self, id: TaskId)
        requires
            old(self).wf(),
        ensures
            final(self).wf(),
            final(self).tasks() == with_state(old(self).tasks(), id, TaskState::Ready),
            final(self).queues() == old(self).queues(),
            final(self).workers() == old(self).workers(),
            final(self).running_flag() == old(self).running_flag(),
            final(self).next_id() == old(self).next_id(),
    {
        self.set_state(id, TaskState::Ready)
    }

    /// Marks the task completed; no effect on an unknown id.
    pub fn complete_task(&mut self, id: TaskId)
        requires
            old(self).wf(),
        ensures
            final(self).wf(),
            final(self).tasks() == with_state(old(self).tasks(), id, TaskState::Completed),
            final(self).queues() == old(self).queues(),
            final(self).workers() == old(self).workers(),
            final(self).running_flag() == old(self).running_flag(),
            final(self).next_id() == old(self).next_id(),
    {
        self.set_state(id, TaskState::Completed)
    }

    /// Marks the task cancelled; no effect on an unknown id.
    pub fn cancel_task(&mut self, id: TaskId)
        requires
            old(self).wf(),
        ensures
            final(self).wf(),
            final(self).tasks() == with_state(old(self).tasks(), id, TaskState::Cancelled),
            final(self).queues() == old(self).queues(),
            final(self).workers() == old(self).workers(),
            final(self).running_flag() == old(self).running_flag(),
            final(self).next_id() == old(self).next_id(),
    {
        self.set_state(id, TaskState::Cancelled)
    }

    pub fn is_running(&self) -> (b: bool)
        ensures
            b == self.running_flag(),
    {
        self.running
    }

    pub fn start(&mut self)
        ensures
            final(self).running_flag(),
            final(self).tasks() == old(self).tasks(),
            final(self).queues() == old(self).queues(),
            final(self).workers() == old(self).workers(),
            final(self).next_id() == old(self).next_id(),
            old(self).wf() ==> final(self).wf(),
    {
        self.running = true;
    }

    pub fn stop(&mut self)
        ensures
            !final(self).running_flag(),
            final(self).tasks() == old(self).tasks(),
            final(self).queues() == old(self).queues(),
            final(self).workers() == old(self).workers(),
            final(self).next_id() == old(self).next_id(),
            old(self).wf() ==> final(self).wf(),
    {
        self.running = false;
    }

    pub fn num_tasks(&self) -> (n: usize)
        ensures
            n == self.tasks().len(),
    {
        self.tasks.len()
    }

    fn count_in(&self, st: TaskState) -> (n: usize)
        ensures
            n == count_state(self.tasks(), st),
    {
        let mut n: usize = 0;
        let mut i: usize = 0;
        while i < self.tasks.len()
            invariant
                i <= self.tasks@.len(),
                n == count_state(self.tasks@.take(i as int), st),
                n <= i,
            decreases self.tasks@.len() - i,
        {
            proof {
                assert(self.tasks@.take(i as int + 1).drop_last() =~= self.tasks@.take(i as int));
            }
            if self.tasks[i].state == st {
                n = n + 1;
            }
            i = i + 1;
        }
        proof {
            assert(self.tasks@.take(i as int) =~= self.tasks@);
        }
        n
    }

    pub fn num_ready_tasks(&self) -> (n: usize)
        ensures
            n == count_state(self.tasks(), TaskState::Ready),
    {
        self.count_in(TaskState::Ready)
    }

    pub fn num_running_tasks(&self) -> (n: usize)
        ensures
            n == count_state(self.tasks(), TaskState::Running),
    {
        self.count_in(TaskState::Running)
    }

    pub fn num_blocked_tasks(&self) -> (n: usize)
        ensures
            n == count_state(self.tasks(), TaskState::Blocked),
    {
        self.count_in(TaskState::Blocked)
    }

    /// The task with id `id`, if the table holds it.
    fn find_task(&self, id: TaskId) -> (r: Option<Task>)
        requires
            self.wf(),
        ensures
            r == task_of(self.tasks(), id),
    {
        let mut i: usize = 0;
        while i < self.tasks.len()
            invariant
                self.wf(),
                i <= self.tasks@.len(),
                forall|k: int| 0 <= k < i ==> (#[trigger] self.tasks@[k]).id != id,
            decreases self.tasks@.len() - i,
        {
            if self.tasks[i].id == id {
                proof {
                    lemma_task_of_at(self.tasks@, i as int);
                }
                return Some(self.tasks[i]);
            }
            i = i + 1;
        }
        None
    }

    /// Wakes task `id`: marks it ready and, when the first worker's local
    /// queue does not hold it yet, appends the task to that queue.
    pub fn wake_task(&mut self, id: TaskId)
        requires
            old(self).wf(),
        ensures
            final(self).wf(),
            final(self).tasks() == with_state(old(self).tasks(), id, TaskState::Ready),
            final(self).workers() == old(self).workers(),
            final(self).running_flag() == old(self).running_flag(),
            final(self).next_id() == old(self).next_id(),
            final(self).queues().len() == old(self).queues().len(),
            forall|v: int| 1 <= v < old(self).queues().len()
                ==> Self::same_queue(#[trigger] final(self).queues()[v], old(self).queues()[v]),
            old(self).queues().len() > 0 ==> ({
                let q = old(self).queues()[0];
                let nq = final(self).queues()[0];
                let t = task_of(final(self).tasks(), id);
                &&& nq.shared_tasks() == q.shared_tasks()
                &&& if !has_task(q.local_tasks(), id) && t is Some {
                    nq.local_tasks() == q.local_tasks().push(t->0)
                } else {
                    nq.local_tasks() == q.local_tasks()
                }
            }),
    {
        self.unblock_task(id);
        if self.queues.len() > 0 {
            let mut present = false;
            let local = self.queues[0].iter();
            let mut i: usize = 0;
            while i < local.len()
                invariant
                    i <= local@.len(),
                    present == (exists|k: int| 0 <= k < i && #[trigger] local@[k].id == id),
                decreases local@.len() - i,
            {
                if local[i].id == id {
                    present = true;
                }
                i = i + 1;
            }
            if !present {
                if let Some(task) = self.find_task(id) {
                    self.queues[0].push_back(task);
                }
            }
        }
    }

    /// Spawns a task for a future: the same bookkeeping as `spawn`.
    pub fn spawn_future<F>(&mut self, future: F) -> (id: TaskId)
        requires
            old(self).wf(),
            old(self).workers() > 0,
            old(self).next_id() < u64::MAX,
        ensures
            final(self).wf(),
            id.0 == old(self).next_id(),
            final(self).next_id() == old(self).next_id() + 1,
            final(self).tasks() == old(self).tasks().push(fresh_task(id)),
            !has_task(old(self).tasks(), id),
            state_of(final(self).tasks(), id) == Some(TaskState::Ready),
            final(self).workers() == old(self).workers(),
            final(self).running_flag() == old(self).running_flag(),
            final(self).queues().len() == old(self).queues().len(),
            ({
                let w = (id.0 % (old(self).workers() as u64)) as int;
                &&& final(self).queues()[w].shared_tasks() == old(self).queues()[w].shared_tasks().push(fresh_task(id))
                &&& final(self).queues()[w].local_tasks() == old(self).queues()[w].local_tasks()
                &&& forall|v: int| 0 <= v < old(self).queues().len() && v != w
                    ==> Self::same_queue(#[trigger] final(self).queues()[v], old(self).queues()[v])
            }),
    {
        self.enqueue_new()
    }
}

impl Default for Scheduler {
    /// A scheduler with one worker per logical CPU.
    fn default() -> (s: Scheduler)
        ensures
            s.wf(),
            s.tasks() == Seq::<Task>::empty(),
            s.workers() >= 1,
            s.queues().len() == s.workers(),
            !s.running_flag(),
            s.next_id() == 1,
    {
        Scheduler::new(crate::runtime::num_cpus())
    }
}

/// A future together with the task it runs as and where it stands.
pub struct FutureTask<F> {
    future: F,
    id: TaskId,
    state: AsyncState,
}

impl<F> FutureTask<F> {
    pub closed spec fn future(&self) -> F {
        self.future
    }

    pub closed spec fn task_id(&self) -> TaskId {
        self.id
    }

    pub closed spec fn current_state(&self) -> AsyncState {
        self.state
    }

    pub fn new(future: F, id: TaskId) -> (t: FutureTask<F>)
        ensures
            t.future() == future,
            t.task_id() == id,
            t.current_state() == AsyncState::Start,
    {
        FutureTask { future, id, state: AsyncState::Start }
    }

    /// The wrapped future, to be polled; marks the task running.
    pub fn future_mut(&mut self) -> (r: &mut F)
        ensures
            *r == old(self).future(),
            final(self).future() == *final(r),
            final(self).task_id() == old(self).task_id(),
            final(self).current_state() == AsyncState::Running,
    {
        self.state = AsyncState::Running;
        &mut self.future
    }

    /// Records the outcome of a poll of the wrapped future and hands it on.
    pub fn record_poll<T>(&mut self, outcome: FuturePoll<T>) -> (r: FuturePoll<T>)
        ensures
            r == outcome,
            final(self).future() == old(self).future(),
            final(self).task_id() == old(self).task_id(),
            final(self).current_state() == (match outcome {
                FuturePoll::Ready(_) => AsyncState::Completed,
                FuturePoll::Pending => AsyncState::Waiting(0),
            }),
    {
        match &outcome {
            FuturePoll::Ready(_) => self.state = AsyncState::Completed,
            FuturePoll::Pending => self.state = AsyncState::Waiting(0),
        }
        outcome
    }

    pub fn state(&self) -> (s: AsyncState)
        ensures
            s == self.current_state(),
    {
        self.state
    }
}

} // verus!
