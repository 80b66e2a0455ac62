//! The channel as a sequential state machine.
//!
//! A [`ChannelState`] holds the buffer and the two wait-lists. One poll of a send or of
//! a receive is one step: it takes the state and the caller's waker, and yields the next
//! state together with what the caller is told and which waiting task is to be woken.
//! [`ChannelView`] is the mathematical picture of a state, and its `send` and `recv`
//! say what a step does.

use crate::ring_buffer::RingBuffer;
use std::collections::VecDeque;
use std::task::Waker;
use vstd::arithmetic::power2::is_pow2;
use vstd::prelude::*;

verus! {

/// The lifecycle of a channel.
#[derive(Clone, Copy, Debug, PartialEq, Eq, Structural)]
pub enum Phase {
    /// At least one producer handle is live.
    Open,
    /// No producer handle is left, but buffered values remain to be drained.
    Closing,
    /// No producer handle is left and the buffer is empty: nothing will ever arrive.
    Closed,
}

/// What one poll of a send did.
pub enum SendStep<T> {
    /// The value was enqueued. `wake` is the consumer that waited longest, if any.
    Sent { wake: Option<Waker> },
    /// The buffer was full. The value comes back and the caller's waker was registered.
    Full { value: T },
}

/// What one poll of a receive did.
pub enum RecvStep<T> {
    /// The oldest value was dequeued. `wake` is the producer that waited longest, if any.
    Received { value: T, wake: Option<Waker> },
    /// Nothing is buffered, but a producer may still send. The caller's waker was
    /// registered.
    Empty,
    /// Nothing is buffered and no producer is left.
    Closed,
}

/// The first entry of a wait-list, if it has one.
pub open spec fn first_waiter(list: Seq<Waker>) -> Option<Waker> {
    if list.len() > 0 {
        Some(list[0])
    } else {
        None
    }
}

/// A wait-list without its first entry.
pub open spec fn later_waiters(list: Seq<Waker>) -> Seq<Waker> {
    if list.len() > 0 {
        list.drop_first()
    } else {
        list
    }
}

/// The mathematical picture of a channel's shared state.
pub struct ChannelView<T> {
    /// The number of slots of the buffer; it holds at most `capacity - 1` values.
    pub capacity: nat,
    /// The buffered values, oldest first.
    pub queue: Seq<T>,
    /// The wakers of suspended producers, in the order they were registered.
    pub waiting_senders: Seq<Waker>,
    /// The wakers of suspended consumers, in the order they were registered.
    pub waiting_receivers: Seq<Waker>,
}

impl<T> ChannelView<T> {
    /// A channel of `capacity` slots in which nothing is buffered and nobody waits.
    pub open spec fn empty(capacity: nat) -> Self {
        ChannelView {
            capacity,
            queue: Seq::empty(),
            waiting_senders: Seq::empty(),
            waiting_receivers: Seq::empty(),
        }
    }

    /// At most `capacity - 1` values are buffered: one slot always stays vacant.
    pub open spec fn well_formed(self) -> bool {
        self.queue.len() < self.capacity
    }

    /// Whether the buffer has no room for another value.
    pub open spec fn is_full(self) -> bool {
        self.queue.len() + 1 >= self.capacity
    }

    /// The lifecycle phase, given whether a producer handle is live.
    pub open spec fn phase(self, senders_alive: bool) -> Phase {
        if senders_alive {
            Phase::Open
        } else if self.queue.len() > 0 {
            Phase::Closing
        } else {
            Phase::Closed
        }
    }

    /// One poll of a send of `value` by a task with waker `waker`.
    ///
    /// With room in the buffer the value goes to the back of the queue and the first
    /// waiting consumer leaves its wait-list to be woken. Without room the value comes
    /// back and `waker` goes to the back of the producers' wait-list.
    pub open spec fn send(self, value: T, waker: Waker) -> (Self, SendStep<T>) {
        if self.is_full() {
            (
                ChannelView { waiting_senders: self.waiting_senders.push(waker), ..self },
                SendStep::Full { value },
            )
        } else {
            (
                ChannelView {
                    queue: self.queue.push(value),
                    waiting_receivers: later_waiters(self.waiting_receivers),
                    ..self
                },
                SendStep::Sent { wake: first_waiter(self.waiting_receivers) },
            )
        }
    }

    /// One poll of a receive by a task with waker `waker`, while a producer handle is
    /// live or not, as `senders_alive` says.
    ///
    /// A closed channel stays as it is. Otherwise the oldest value, if there is one,
    /// leaves the queue and the first waiting producer leaves its wait-list to be woken;
    /// if there is none, `waker` goes to the back of the consumers' wait-list.
    pub open spec fn recv(self, senders_alive: bool, waker: Waker) -> (Self, RecvStep<T>) {
        if self.phase(senders_alive) is Closed {
            (self, RecvStep::Closed)
        } else if self.queue.len() > 0 {
            (
                ChannelView {
                    queue: self.queue.drop_first(),
                    waiting_senders: later_waiters(self.waiting_senders),
                    ..self
                },
                RecvStep::Received {
                    value: self.queue[0],
                    wake: first_waiter(self.waiting_senders),
                },
            )
        } else {
            (
                ChannelView { waiting_receivers: self.waiting_receivers.push(waker), ..self },
                RecvStep::Empty,
            )
        }
    }
}

/// The shared state of a channel: the buffer and the wait-lists of both sides.
pub struct ChannelState<T> {
    buffer: RingBuffer<T>,
    waiting_senders: VecDeque<Waker>,
    waiting_receivers: VecDeque<Waker>,
}

impl<T> ChannelState<T> {
    /// The mathematical picture of this state.
    pub closed spec fn view(&self) -> ChannelView<T> {
        ChannelView {
            capacity: self.buffer.spec_capacity(),
            queue: self.buffer@,
            waiting_senders: self.waiting_senders@,
            waiting_receivers: self.waiting_receivers@,
        }
    }

    /// Creates the state of a fresh channel whose buffer has `capacity` slots.
    pub fn new(capacity: usize) -> (r: Self)
        requires
            is_pow2(capacity as int),
        ensures
            r@ == ChannelView::<T>::empty(capacity as nat),
            r@.well_formed(),
    {
        ChannelState {
            buffer: RingBuffer::new(capacity),
            waiting_senders: VecDeque::new(),
            waiting_receivers: VecDeque::new(),
        }
    }

    /// The lifecycle phase, given whether a producer handle is live.
    pub fn phase(&self, senders_alive: bool) -> (r: Phase)
        ensures
            r == self@.phase(senders_alive),
            self@.well_formed(),
    {
        let drained = self.buffer.is_empty();
        if senders_alive {
            Phase::Open
        } else if drained {
            Phase::Closed
        } else {
            Phase::Closing
        }
    }

    /// Polls a send of `value` once on behalf of the task that `waker` wakes.
    pub fn poll_send(&mut self, value: T, waker: Waker) -> (r: SendStep<T>)
        ensures
            (final(self)@, r) == old(self)@.send(value, waker),
            final(self)@.well_formed(),
    {
        match self.buffer.push(value) {
            Ok(()) => SendStep::Sent { wake: self.waiting_receivers.pop_front() },
            Err(value) => {
                self.waiting_senders.push_back(waker);
                SendStep::Full { value }
            },
        }
    }

    /// Polls a receive once on behalf of the task that `waker` wakes. `senders_alive`
    /// says whether a producer handle is live.
    pub fn poll_recv(&mut self, senders_alive: bool, waker: Waker) -> (r: RecvStep<T>)
        ensures
            (final(self)@, r) == old(self)@.recv(senders_alive, waker),
            old(self)@.well_formed(),
            final(self)@.well_formed(),
    {
        if self.phase(senders_alive) == Phase::Closed {
            return RecvStep::Closed;
        }
        match self.buffer.pop() {
            Some(value) => RecvStep::Received { value, wake: self.waiting_senders.pop_front() },
            None => {
                self.waiting_receivers.push_back(waker);
                RecvStep::Empty
            },
        }
    }
}

} // verus!
