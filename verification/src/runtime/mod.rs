//! Runtime support: task scheduling, futures, message queues and allocator
//! accounting.

pub mod scheduler;
pub mod future;
pub mod channel;
pub mod memory;

use vstd::prelude::*;
use std::collections::VecDeque;

verus! {

/// Calls `num_cpus::get`, which reports the number of logical CPUs this
/// process may use; its documentation promises at least 1.  The exact count
/// depends on the machine and is not stated.
#[verifier::external_body]
pub fn num_cpus() -> (n: usize)
    ensures
        n >= 1,
{
    num_cpus::get()
}

/// A first-in, first-out queue of work items.
pub struct WorkQueue<T> {
    queue: VecDeque<T>,
}

impl<T> WorkQueue<T> {
    /// The queued items, oldest first.
    pub closed spec fn items(&self) -> Seq<T> {
        self.queue@
    }

    pub fn new() -> (q: WorkQueue<T>)
        ensures
            q.items() == Seq::<T>::empty(),
    {
        WorkQueue { queue: VecDeque::new() }
    }

    /// Appends an item at the back.
    pub fn push(&mut self, task: T)
        ensures
            final(self).items() == old(self).items().push(task),
    {
        self.queue.push_back(task);
    }

    /// Takes the oldest item, if there is one.
    pub fn pop(&mut self) -> (r: Option<T>)
        ensures
            old(self).items().len() == 0 ==> r is None && final(self).items() == old(self).items(),
            old(self).items().len() > 0 ==> r == Some(old(self).items()[0])
                && final(self).items() == old(self).items().drop_first(),
    {
        let r = self.queue.pop_front();
        proof {
            if old(self).queue@.len() > 0 {
                assert(old(self).queue@.subrange(1, old(self).queue@.len() as int) =~= old(self).queue@.drop_first());
            }
        }
        r
    }

    /// Takes the oldest item.  With a single owner nothing can arrive while
    /// waiting, so the queue must hold an item.
    pub fn pop_blocking(&mut self) -> (r: T)
        requires
            old(self).items().len() > 0,
        ensures
            r == old(self).items()[0],
            final(self).items() == old(self).items().drop_first(),
    {
        let r = self.queue.pop_front();
        proof {
            assert(old(self).queue@.subrange(1, old(self).queue@.len() as int) =~= old(self).queue@.drop_first());
        }
        r.unwrap()
    }

    pub fn is_empty(&self) -> (b: bool)
        ensures
            b == (self.items().len() == 0),
    {
        self.queue.len() == 0
    }

    pub fn len(&self) -> (n: usize)
        ensures
            n == self.items().len(),
    {
        self.queue.len()
    }
}

impl<T> Default for WorkQueue<T> {
    fn default() -> (q: WorkQueue<T>)
        ensures
            q.items() == Seq::<T>::empty(),
    {
        WorkQueue::new()
    }
}

/// Runtime configuration.
#[derive(Debug, Clone, Copy, PartialEq, Eq, Structural)]
pub struct RuntimeConfig {
    pub num_workers: usize,
    pub stack_size: usize,
    pub work_stealing: bool,
}

impl Default for RuntimeConfig {
    /// One worker per logical CPU, 1 MiB stacks and work stealing on.
    fn default() -> (c: RuntimeConfig)
        ensures
            c.num_workers >= 1,
            c.stack_size == 1048576,
            c.work_stealing,
    {
        RuntimeConfig { num_workers: num_cpus(), stack_size: 1048576, work_stealing: true }
    }
}

} // verus!
