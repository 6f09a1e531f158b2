//! Poll results, ready/pending futures and the state of generated async
//! state machines.

use vstd::prelude::*;

verus! {

/// The result of polling a future.
#[derive(Debug, PartialEq, Eq)]
pub enum FuturePoll<T> {
    Ready(T),
    Pending,
}

/// Async state machine state.
#[derive(Debug, Clone, Copy, PartialEq, Eq, Structural)]
pub enum AsyncState {
    Start,
    Running,
    Waiting(u32),
    Completed,
    Panicked,
}

/// A future that yields its value on the first poll.
#[derive(Debug)]
pub struct ReadyFuture<T>(Option<T>);

impl<T> ReadyFuture<T> {
    pub closed spec fn value(&self) -> Option<T> {
        self.0
    }

    pub fn new(value: T) -> (f: ReadyFuture<T>)
        ensures
            f.value() == Some(value),
    {
        ReadyFuture(Some(value))
    }

    /// Polls once: the value, the first time.  Polling again after the value
    /// was taken is a contract violation.
    pub fn poll(&mut self) -> (r: FuturePoll<T>)
        requires
            old(self).value() is Some,
        ensures
            r == FuturePoll::Ready(old(self).value()->0),
            final(self).value() is None,
    {
        match self.0.take() {
            Some(v) => FuturePoll::Ready(v),
            None => FuturePoll::Pending,
        }
    }
}

/// A future that never completes.
#[derive(Debug)]
pub struct PendingFuture<T>(std::marker::PhantomData<T>);

impl<T> PendingFuture<T> {
    pub fn new() -> (f: PendingFuture<T>) {
        PendingFuture(std::marker::PhantomData)
    }

    /// Polls once: always pending.
    pub fn poll(&mut self) -> (r: FuturePoll<T>)
        ensures
            r == FuturePoll::<T>::Pending,
    {
        FuturePoll::Pending
    }
}

/// A waker for the task with a given id.
#[derive(Debug, Clone, Copy, PartialEq, Eq, Structural)]
pub struct Waker {
    pub task_id: u64,
}

impl Waker {
    pub fn new(task_id: u64) -> (w: Waker)
        ensures
            w.task_id == task_id,
    {
        Waker { task_id }
    }
}

/// The context handed to a poll.
#[derive(Debug, Clone, Copy, PartialEq, Eq, Structural)]
pub struct TaskContext {
    pub waker: Waker,
}

impl TaskContext {
    pub fn new(waker: Waker) -> (c: TaskContext)
        ensures
            c.waker == waker,
    {
        TaskContext { waker }
    }
}

/// The value a poll produced, if it produced one.
pub open spec fn ready_value<O>(p: Option<FuturePoll<O>>) -> Option<O> {
    match p {
        Some(FuturePoll::Ready(v)) => Some(v),
        _ => None,
    }
}

/// Two futures awaited together, with the results of those that finished.
#[derive(Debug)]
pub struct Join<F1, F2, O1, O2> {
    f1: Option<F1>,
    f2: Option<F2>,
    result1: Option<O1>,
    result2: Option<O2>,
}

impl<F1, F2, O1, O2> Join<F1, F2, O1, O2> {
    pub closed spec fn first(&self) -> Option<F1> {
        self.f1
    }

    pub closed spec fn second(&self) -> Option<F2> {
        self.f2
    }

    pub closed spec fn first_result(&self) -> Option<O1> {
        self.result1
    }

    pub closed spec fn second_result(&self) -> Option<O2> {
        self.result2
    }

    /// Still waiting on at least one future, and holding the result of each
    /// one that finished.
    pub open spec fn is_waiting(&self) -> bool {
        &&& (self.first() is None ==> self.first_result() is Some)
        &&& (self.second() is None ==> self.second_result() is Some)
        &&& !(self.first() is None && self.second() is None)
    }

    /// What the first slot holds after a poll that produced `poll1`.
    pub open spec fn next_first_result(&self, poll1: Option<FuturePoll<O1>>) -> Option<O1> {
        if self.first() is Some && ready_value(poll1) is Some {
            ready_value(poll1)
        } else {
            self.first_result()
        }
    }

    pub open spec fn next_second_result(&self, poll2: Option<FuturePoll<O2>>) -> Option<O2> {
        if self.second() is Some && ready_value(poll2) is Some {
            ready_value(poll2)
        } else {
            self.second_result()
        }
    }

    pub fn new(f1: F1, f2: F2) -> (j: Self)
        ensures
            j.first() == Some(f1),
            j.second() == Some(f2),
            j.first_result() is None,
            j.second_result() is None,
            j.is_waiting(),
    {
        Join { f1: Some(f1), f2: Some(f2), result1: None, result2: None }
    }

    /// Records the outcome of polling each unfinished future once (`None` for
    /// one that was not polled) and yields both results once both finished.
    pub fn step(&mut self, poll1: Option<FuturePoll<O1>>, poll2: Option<FuturePoll<O2>>) -> (r:
        FuturePoll<(O1, O2)>)
        requires
            old(self).is_waiting(),
        ensures
            ({
                let n1 = old(self).next_first_result(poll1);
                let n2 = old(self).next_second_result(poll2);
                let done1 = old(self).first() is None || ready_value(poll1) is Some;
                let done2 = old(self).second() is None || ready_value(poll2) is Some;
                &&& final(self).first() == (if done1 { None } else { old(self).first() })
                &&& final(self).second() == (if done2 { None } else { old(self).second() })
                &&& if done1 && done2 {
                    &&& r == FuturePoll::Ready((n1->0, n2->0))
                    &&& final(self).first_result() is None
                    &&& final(self).second_result() is None
                } else {
                    &&& r == FuturePoll::<(O1, O2)>::Pending
                    &&& final(self).first_result() == n1
                    &&& final(self).second_result() == n2
                    &&& final(self).is_waiting()
                }
            }),
    {
        if self.f1.is_some() {
            if let Some(FuturePoll::Ready(v)) = poll1 {
                self.result1 = Some(v);
                self.f1 = None;
            }
        }
        if self.f2.is_some() {
            if let Some(FuturePoll::Ready(v)) = poll2 {
                self.result2 = Some(v);
                self.f2 = None;
            }
        }
        if self.f1.is_none() && self.f2.is_none() {
            let a = self.result1.take();
            let b = self.result2.take();
            match (a, b) {
                (Some(a), Some(b)) => FuturePoll::Ready((a, b)),
                (a, b) => {
                    self.result1 = a;
                    self.result2 = b;
                    FuturePoll::Pending
                },
            }
        } else {
            FuturePoll::Pending
        }
    }
}

} // verus!
