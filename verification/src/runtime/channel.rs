//! Multi-producer, multi-consumer channels for message passing between
//! lightweight threads.
//!
//! The queue discipline lives in `ChannelState`, a plain state machine.
//! `Sender` and `Receiver` share one state behind a verified lock; a side is
//! gone once every handle of it was dropped, which the handles observe
//! through the holder count of a token that each handle of that side holds.

use vstd::prelude::*;
use vstd::rwlock::{RwLock, RwLockPredicate};
use std::collections::VecDeque;
use std::sync::Arc;

verus! {

/// Why a channel operation did not go through.
#[derive(Debug, Clone, Copy, PartialEq, Eq, Structural)]
pub enum ChannelError {
    Full,
    Empty,
    Closed,
    Timeout,
    SendError,
    RecvError,
}

impl ChannelError {
    /// The human-readable description of the error.
    pub fn message(&self) -> (s: &'static str)
        ensures
            s@ == channel_error_text(*self),
    {
        match self {
            ChannelError::Full => "channel is full",
            ChannelError::Empty => "channel is empty",
            ChannelError::Closed => "channel is closed",
            ChannelError::Timeout => "operation timed out",
            ChannelError::SendError => "send failed: all receivers dropped",
            ChannelError::RecvError => "receive failed: all senders dropped",
        }
    }
}

pub open spec fn channel_error_text(e: ChannelError) -> Seq<char> {
    match e {
        ChannelError::Full => "channel is full"@,
        ChannelError::Empty => "channel is empty"@,
        ChannelError::Closed => "channel is closed"@,
        ChannelError::Timeout => "operation timed out"@,
        ChannelError::SendError => "send failed: all receivers dropped"@,
        ChannelError::RecvError => "receive failed: all senders dropped"@,
    }
}

/// The queue of a channel: its messages, its capacity (0 for unbounded)
/// and whether it was closed.
pub struct ChannelState<T> {
    queue: VecDeque<T>,
    capacity: usize,
    closed: bool,
}

/// Whether a queue of `len` messages is full at capacity `capacity`.
pub open spec fn full_at(len: nat, capacity: nat) -> bool {
    capacity > 0 && len >= capacity
}

impl<T> ChannelState<T> {
    /// The messages waiting, oldest first.
    pub closed spec fn messages(&self) -> Seq<T> {
        self.queue@
    }

    pub closed spec fn cap(&self) -> nat {
        self.capacity as nat
    }

    pub closed spec fn is_closed_flag(&self) -> bool {
        self.closed
    }

    /// A bounded queue never holds more than its capacity.
    pub open spec fn wf(&self) -> bool {
        self.cap() == 0 || self.messages().len() <= self.cap()
    }

    pub fn new(capacity: usize) -> (s: ChannelState<T>)
        ensures
            s.wf(),
            s.messages() == Seq::<T>::empty(),
            s.cap() == capacity,
            !s.is_closed_flag(),
    {
        ChannelState { queue: VecDeque::new(), capacity, closed: false }
    }

    pub fn is_full(&self) -> (b: bool)
        ensures
            b == full_at(self.messages().len(), self.cap()),
    {
        self.capacity > 0 && self.queue.len() >= self.capacity
    }

    pub fn is_empty(&self) -> (b: bool)
        ensures
            b == (self.messages().len() == 0),
    {
        self.queue.len() == 0
    }

    pub fn len(&self) -> (n: usize)
        ensures
            n == self.messages().len(),
    {
        self.queue.len()
    }

    pub fn is_closed(&self) -> (b: bool)
        ensures
            b == self.is_closed_flag(),
    {
        self.closed
    }

    /// Closes the channel for good.
    pub fn close(&mut self)
        ensures
            final(self).is_closed_flag(),
            final(self).messages() == old(self).messages(),
            final(self).cap() == old(self).cap(),
    {
        self.closed = true;
    }

    /// Appends a message unless the channel is closed or full; a refused
    /// message is handed back with the reason.
    pub fn offer(&mut self, msg: T) -> (r: Result<(), (ChannelError, T)>)
        requires
            old(self).wf(),
        ensures
            final(self).wf(),
            final(self).cap() == old(self).cap(),
            final(self).is_closed_flag() == old(self).is_closed_flag(),
            old(self).is_closed_flag() ==> r == Err::<(), (ChannelError, T)>((ChannelError::Closed, msg))
                && final(self).messages() == old(self).messages(),
            !old(self).is_closed_flag() && full_at(old(self).messages().len(), old(self).cap())
                ==> r == Err::<(), (ChannelError, T)>((ChannelError::Full, msg))
                && final(self).messages() == old(self).messages(),
            !old(self).is_closed_flag() && !full_at(old(self).messages().len(), old(self).cap())
                ==> r is Ok && final(self).messages() == old(self).messages().push(msg),
    {
        if self.closed {
            return Err((ChannelError::Closed, msg));
        }
        if self.capacity > 0 && self.is_full() {
            return Err((ChannelError::Full, msg));
        }
        self.queue.push_back(msg);
        Ok(())
    }

    /// Appends a message unless the channel is closed or full.
    pub fn send(&mut self, msg: T) -> (r: Result<(), ChannelError>)
        requires
            old(self).wf(),
        ensures
            final(self).wf(),
            final(self).cap() == old(self).cap(),
            final(self).is_closed_flag() == old(self).is_closed_flag(),
            old(self).is_closed_flag() ==> r == Err::<(), ChannelError>(ChannelError::Closed)
                && final(self).messages() == old(self).messages(),
            !old(self).is_closed_flag() && full_at(old(self).messages().len(), old(self).cap())
                ==> r == Err::<(), ChannelError>(ChannelError::Full)
                && final(self).messages() == old(self).messages(),
            !old(self).is_closed_flag() && !full_at(old(self).messages().len(), old(self).cap())
                ==> r is Ok && final(self).messages() == old(self).messages().push(msg),
    {
        match self.offer(msg) {
            Ok(()) => Ok(()),
            Err((e, _)) => Err(e),
        }
    }

    /// Takes the oldest message; when there is none, the channel is
    /// reported closed or empty.
    pub fn recv(&mut self) -> (r: Result<T, ChannelError>)
        requires
            old(self).wf(),
        ensures
            final(self).wf(),
            final(self).cap() == old(self).cap(),
            final(self).is_closed_flag() == old(self).is_closed_flag(),
            old(self).messages().len() > 0 ==> r == Ok::<T, ChannelError>(old(self).messages()[0])
                && final(self).messages() == old(self).messages().drop_first(),
            old(self).messages().len() == 0 ==> final(self).messages() == old(self).messages()
                && r == Err::<T, ChannelError>(
                if old(self).is_closed_flag() {
                    ChannelError::Closed
                } else {
                    ChannelError::Empty
                },
            ),
    {
        let front = self.queue.pop_front();
        proof {
            if old(self).queue@.len() > 0 {
                assert(old(self).queue@.subrange(1, old(self).queue@.len() as int)
                    =~= old(self).queue@.drop_first());
            }
        }
        match front {
            Some(msg) => Ok(msg),
            None => {
                if self.closed {
                    Err(ChannelError::Closed)
                } else {
                    Err(ChannelError::Empty)
                }
            },
        }
    }
}

/// First in, first out: on a queue that already holds messages, receiving
/// gives the oldest one whether or not a message was sent just before, and
/// a send and a receive leave the same queue in either order.
pub proof fn law_send_recv_commute<T>(q: Seq<T>, msg: T)
    requires
        q.len() > 0,
    ensures
        q.push(msg)[0] == q[0],
        q.push(msg).drop_first() == q.drop_first().push(msg),
{
    assert(q.push(msg).drop_first() =~= q.drop_first().push(msg));
}

/// A message sent into an empty open channel with room is the next one
/// received, and the queue is empty again afterwards.
pub proof fn law_send_then_recv<T>(msg: T)
    ensures
        Seq::<T>::empty().push(msg)[0] == msg,
        Seq::<T>::empty().push(msg).drop_first() == Seq::<T>::empty(),
{
    assert(Seq::<T>::empty().push(msg).drop_first() =~= Seq::<T>::empty());
}

/// The invariant kept by the lock around a channel's state: the queue is
/// well formed and has the capacity the channel was made with.
pub struct ChannelInv {
    pub cap: usize,
}

impl<T> RwLockPredicate<ChannelState<T>> for ChannelInv {
    open spec fn inv(self, v: ChannelState<T>) -> bool {
        v.wf() && v.cap() == self.cap
    }
}

/// What the handles of one channel share.
pub struct Shared<T> {
    lock: RwLock<ChannelState<T>, ChannelInv>,
    sender_probe: Arc<()>,
    receiver_probe: Arc<()>,
}

/// Calls `Arc::clone`, which hands out another handle to the same
/// allocation and raises its holder count by one.
#[verifier::external_body]
fn share<V>(a: &Arc<V>) -> (r: Arc<V>)
    ensures
        r == *a,
{
    Arc::clone(a)
}

/// Calls `Arc::strong_count`, the number of handles that hold the
/// allocation at this moment.  Other threads may change it at any time, so
/// nothing is stated of the result.
#[verifier::external_body]
fn holders(a: &Arc<()>) -> usize {
    Arc::strong_count(a)
}

impl<T> Shared<T> {
    /// Marks the state closed when every sender or every receiver is gone.
    /// The probe itself holds one count, so a count of one means no handle.
    fn note_departures(&self, state: &mut ChannelState<T>)
        requires
            old(state).wf(),
        ensures
            final(state).wf(),
            final(state).messages() == old(state).messages(),
            final(state).cap() == old(state).cap(),
            old(state).is_closed_flag() ==> final(state).is_closed_flag(),
    {
        if holders(&self.sender_probe) <= 1 || holders(&self.receiver_probe) <= 1 {
            state.close();
        }
    }
}

/// Channel constructors.
pub struct Channel<T> {
    shared: Arc<Shared<T>>,
}

impl<T> Channel<T> {
    /// The number of messages the channel holds at most (0: unbounded).
    pub closed spec fn capacity(&self) -> nat {
        self.shared.lock.pred().cap as nat
    }

    /// A channel that holds at most `capacity` messages (0: unbounded), with
    /// one sender and one receiver.
    pub fn new(capacity: usize) -> (r: (Sender<T>, Receiver<T>))
        ensures
            r.0.capacity() == capacity,
            r.1.capacity() == capacity,
    {
        let state = ChannelState::new(capacity);
        let lock = RwLock::new(state, Ghost(ChannelInv { cap: capacity }));
        let sender_probe = Arc::new(());
        let receiver_probe = Arc::new(());
        let tx_token = share(&sender_probe);
        let rx_token = share(&receiver_probe);
        let shared = Arc::new(Shared { lock, sender_probe, receiver_probe });
        let channel = Channel { shared: share(&shared) };
        let sender = Sender { channel: Channel { shared }, token: tx_token };
        let receiver = Receiver { channel, token: rx_token };
        (sender, receiver)
    }

    /// A channel without a capacity limit.
    pub fn unbounded() -> (r: (Sender<T>, Receiver<T>))
        ensures
            r.0.capacity() == 0,
            r.1.capacity() == 0,
    {
        Self::new(0)
    }
}

/// The sending end of a channel.
pub struct Sender<T> {
    channel: Channel<T>,
    token: Arc<()>,
}

impl<T> Sender<T> {
    /// The capacity of the channel (0: unbounded).
    pub closed spec fn capacity(&self) -> nat {
        self.channel.capacity()
    }

    /// Sends a message, handing it back with the reason when the channel is
    /// closed or full; only a bounded channel is ever full.
    pub fn offer(&self, msg: T) -> (r: Result<(), (ChannelError, T)>)
        ensures
            r is Err ==> r->Err_0.1 == msg,
            r is Err ==> r->Err_0.0 == ChannelError::Closed || r->Err_0.0 == ChannelError::Full,
            r matches Err((ChannelError::Full, _)) ==> self.capacity() > 0,
    {
        let shared = &*self.channel.shared;
        let (mut state, handle) = shared.lock.acquire_write();
        shared.note_departures(&mut state);
        let r = state.offer(msg);
        handle.release_write(state);
        r
    }

    /// Sends a message; `Full` when the channel is bounded and full,
    /// `Closed` when it is closed.
    pub fn send(&self, msg: T) -> (r: Result<(), ChannelError>)
        ensures
            r is Err ==> r->Err_0 == ChannelError::Closed || r->Err_0 == ChannelError::Full,
            r == Err::<(), ChannelError>(ChannelError::Full) ==> self.capacity() > 0,
    {
        match self.offer(msg) {
            Ok(()) => Ok(()),
            Err((e, _)) => Err(e),
        }
    }

    /// Whether the channel is closed (every receiver gone, or closed).
    pub fn is_closed(&self) -> bool {
        self.channel.is_closed()
    }

    /// The number of messages waiting; never more than a bounded
    /// channel's capacity.
    pub fn len(&self) -> (n: usize)
        ensures
            self.capacity() > 0 ==> n <= self.capacity(),
    {
        self.channel.len()
    }

    pub fn is_empty(&self) -> bool {
        self.channel.is_empty()
    }
}

impl<T> Channel<T> {
    fn is_closed(&self) -> bool {
        let shared = &*self.shared;
        let (mut state, handle) = shared.lock.acquire_write();
        shared.note_departures(&mut state);
        let b = state.is_closed();
        handle.release_write(state);
        b
    }

    fn len(&self) -> (n: usize)
        ensures
            self.capacity() > 0 ==> n <= self.capacity(),
    {
        let shared = &*self.shared;
        let handle = shared.lock.acquire_read();
        let n = handle.borrow().len();
        handle.release_read();
        n
    }

    fn is_empty(&self) -> bool {
        let shared = &*self.shared;
        let handle = shared.lock.acquire_read();
        let b = handle.borrow().is_empty();
        handle.release_read();
        b
    }
}

impl<T> Clone for Sender<T> {
    /// Another sender of the same channel.
    fn clone(&self) -> (r: Self)
        ensures
            r.capacity() == self.capacity(),
    {
        Sender { channel: Channel { shared: share(&self.channel.shared) }, token: share(&self.token) }
    }
}

/// The receiving end of a channel.
pub struct Receiver<T> {
    channel: Channel<T>,
    token: Arc<()>,
}

impl<T> Receiver<T> {
    /// The capacity of the channel (0: unbounded).
    pub closed spec fn capacity(&self) -> nat {
        self.channel.capacity()
    }

    /// Takes the oldest message: `Empty` when there is none, `Closed` when
    /// there is none and every sender is gone.
    pub fn recv(&self) -> (r: Result<T, ChannelError>)
        ensures
            r is Err ==> r->Err_0 == ChannelError::Closed || r->Err_0 == ChannelError::Empty,
    {
        let shared = &*self.channel.shared;
        let (mut state, handle) = shared.lock.acquire_write();
        shared.note_departures(&mut state);
        let r = state.recv();
        handle.release_write(state);
        r
    }

    /// The same as `recv`: it never waits.
    pub fn try_recv(&self) -> (r: Result<T, ChannelError>)
        ensures
            r is Err ==> r->Err_0 == ChannelError::Closed || r->Err_0 == ChannelError::Empty,
    {
        self.recv()
    }

    /// Whether the channel is closed (every sender gone, or closed).
    pub fn is_closed(&self) -> bool {
        self.channel.is_closed()
    }

    /// The number of messages waiting; never more than a bounded
    /// channel's capacity.
    pub fn len(&self) -> (n: usize)
        ensures
            self.capacity() > 0 ==> n <= self.capacity(),
    {
        self.channel.len()
    }

    pub fn is_empty(&self) -> bool {
        self.channel.is_empty()
    }
}

impl<T> Clone for Receiver<T> {
    /// Another receiver of the same channel.
    fn clone(&self) -> (r: Self)
        ensures
            r.capacity() == self.capacity(),
    {
        Receiver { channel: Channel { shared: share(&self.channel.shared) }, token: share(&self.token) }
    }
}

/// A channel holding at most `capacity` messages (0: unbounded).
pub fn channel<T>(capacity: usize) -> (r: (Sender<T>, Receiver<T>))
    ensures
        r.0.capacity() == capacity,
        r.1.capacity() == capacity,
{
    Channel::new(capacity)
}

/// A channel without a capacity limit.
pub fn unbounded<T>() -> (r: (Sender<T>, Receiver<T>))
    ensures
        r.0.capacity() == 0,
        r.1.capacity() == 0,
{
    Channel::unbounded()
}

/// What a waiting send or receive does after one attempt: stop with a
/// result, or wait and try again (with the refused message, for a send).
pub enum WaitStep<R, M> {
    Done(R),
    Retry(M),
}

/// The decision after one attempt to send within a time limit: a sent
/// message is done; a message refused because the channel is full is tried
/// again until the deadline has passed, then the send times out; any other
/// refusal ends the send with its error.
pub fn send_wait_step<T>(outcome: Result<(), (ChannelError, T)>, deadline_passed: bool) -> (r: WaitStep<Result<(), ChannelError>, T>)
    ensures
        match outcome {
            Ok(()) => r == WaitStep::<Result<(), ChannelError>, T>::Done(Ok(())),
            Err((ChannelError::Full, m)) => if deadline_passed {
                r == WaitStep::<Result<(), ChannelError>, T>::Done(Err(ChannelError::Timeout))
            } else {
                r == WaitStep::<Result<(), ChannelError>, T>::Retry(m)
            },
            Err((e, _)) => r == WaitStep::<Result<(), ChannelError>, T>::Done(Err(e)),
        },
{
    match outcome {
        Ok(()) => WaitStep::Done(Ok(())),
        Err((ChannelError::Full, m)) => {
            if deadline_passed {
                WaitStep::Done(Err(ChannelError::Timeout))
            } else {
                WaitStep::Retry(m)
            }
        },
        Err((e, _)) => WaitStep::Done(Err(e)),
    }
}

/// The decision after one attempt to receive: an empty channel is tried
/// again (until the deadline has passed when there is one, then the
/// receive times out); a message or any other error ends the receive.
pub fn recv_wait_step<T>(outcome: Result<T, ChannelError>, deadline_passed: bool) -> (r: WaitStep<Result<T, ChannelError>, ()>)
    ensures
        match outcome {
            Err(ChannelError::Empty) => if deadline_passed {
                r == WaitStep::<Result<T, ChannelError>, ()>::Done(Err(ChannelError::Timeout))
            } else {
                r == WaitStep::<Result<T, ChannelError>, ()>::Retry(())
            },
            other => r == WaitStep::<Result<T, ChannelError>, ()>::Done(other),
        },
{
    match outcome {
        Err(ChannelError::Empty) => {
            if deadline_passed {
                WaitStep::Done(Err(ChannelError::Timeout))
            } else {
                WaitStep::Retry(())
            }
        },
        other => WaitStep::Done(other),
    }
}

} // verus!
