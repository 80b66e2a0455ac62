//! Cloneable producer and consumer handles onto one shared channel, and the two
//! resumable operations, send and receive.
//!
//! Every handle shares one [`ChannelInner`]. A poll of a [`SendFuture`] or of a
//! [`RecvFuture`] takes the channel's mutex, makes one step of the state machine of
//! [`crate::state`], lets the mutex go and wakes the task that the step chose. What a
//! poll finds in the channel depends on the other handles, so the contract of `poll`
//! states only what holds whatever it finds. What the poll does with the state it finds
//! is pinned down by [`SendFuture::poll_on`] and [`RecvFuture::poll_on`], which take the
//! state as an argument.
//!
//! A channel counts its producer handles by the handles of an `Arc<()>`: the channel
//! keeps one, and every [`Sender`] holds one more for as long as it lives. What a count
//! means is pinned down by [`producers_live`].

use crate::state::ChannelState;
use crate::state::ChannelView;
use crate::state::RecvStep;
use crate::state::SendStep;
use crate::sync::clone_waker;
use crate::sync::guard_mut;
use crate::sync::lock;
use crate::sync::new_mutex;
use crate::sync::strong_count;
use crate::sync::wake;
use std::marker::PhantomData;
use std::sync::Arc;
use std::sync::Mutex;
use std::task::Waker;
use vstd::arithmetic::power2::is_pow2;
use vstd::prelude::*;

verus! {

/// Why a send did not deliver its value.
#[derive(Clone, Copy, Debug, PartialEq, Eq, Structural)]
pub enum SendError {
    /// The buffer had no room.
    BufferFull,
    /// The channel can no longer deliver a value.
    Closed,
}

impl SendError {
    /// The error in words.
    pub fn message(&self) -> (r: &'static str)
        ensures
            self == SendError::BufferFull ==> r@ == "Buffer is full"@,
            self == SendError::Closed ==> r@ == "Channel closed"@,
    {
        match self {
            SendError::BufferFull => "Buffer is full",
            SendError::Closed => "Channel closed",
        }
    }
}

/// Marks a handle of a channel on which values are sent and received.
pub struct Open;

/// Marks a handle of a channel that only drains what it has buffered.
pub struct Closing;

/// Marks a handle of a channel that has ended.
pub struct Closed;

/// How far a resumable operation has come.
#[derive(Debug, PartialEq, Eq)]
pub enum Progress<T> {
    /// The operation is complete, with this result.
    Ready(T),
    /// The operation is suspended until its task is woken.
    Pending,
}

/// The state behind a channel, shared by all of its handles.
#[verifier::reject_recursive_types(T)]
pub struct ChannelInner<T> {
    state: Mutex<ChannelState<T>>,
    sender_count: Arc<()>,
    capacity: usize,
}

impl<T> ChannelInner<T> {
    /// The number of slots the channel was created with.
    pub closed spec fn spec_capacity(&self) -> nat {
        self.capacity as nat
    }
}

/// A producer handle. The channel counts it as a live producer from its creation, by
/// [`channel`] or by `clone`, until it is dropped.
#[verifier::reject_recursive_types(T)]
pub struct Sender<T, S> {
    inner: Arc<ChannelInner<T>>,
    _sender_ref: Arc<()>,
    _state: PhantomData<S>,
}

/// A consumer handle. Once no producer handle is left and the buffer is drained, every
/// receive through it reports the end of the channel.
#[verifier::reject_recursive_types(T)]
pub struct Receiver<T, S> {
    inner: Arc<ChannelInner<T>>,
    _state: PhantomData<S>,
}

/// Creates a channel whose buffer has `capacity` slots, and with it one producer handle
/// and one consumer handle.
pub fn channel<T>(capacity: usize) -> (r: (Sender<T, Open>, Receiver<T, Open>))
    requires
        is_pow2(capacity as int),
    ensures
        r.0.inner() == r.1.inner(),
        r.0.inner().spec_capacity() == capacity,
{
    let sender_count = Arc::new(());
    let chan = Arc::new(
        ChannelInner {
            state: new_mutex(ChannelState::new(capacity)),
            sender_count: sender_count.clone(),
            capacity,
        },
    );
    let sender = Sender { inner: chan.clone(), _sender_ref: sender_count, _state: PhantomData };
    let receiver = Receiver { inner: chan, _state: PhantomData };
    (sender, receiver)
}

impl<T, S> Sender<T, S> {
    /// The channel that this handle belongs to.
    pub closed spec fn inner(&self) -> ChannelInner<T> {
        *self.inner
    }

    /// The number of slots the channel was created with.
    pub fn capacity(&self) -> (r: usize)
        ensures
            r == self.inner().spec_capacity(),
    {
        self.inner.capacity
    }
}

impl<T, S> Receiver<T, S> {
    /// The channel that this handle belongs to.
    pub closed spec fn inner(&self) -> ChannelInner<T> {
        *self.inner
    }

    /// The number of slots the channel was created with.
    pub fn capacity(&self) -> (r: usize)
        ensures
            r == self.inner().spec_capacity(),
    {
        self.inner.capacity
    }
}

impl<T> Sender<T, Open> {
    /// Starts a send of `value`. Nothing happens until the result is polled.
    pub fn send(&self, value: T) -> (r: SendFuture<'_, T>)
        ensures
            r.sender() == *self,
            r.pending() == Some(value),
    {
        SendFuture { sender: self, value: Some(value) }
    }
}

impl<T> Receiver<T, Open> {
    /// Starts a receive. Nothing happens until the result is polled.
    pub fn recv(&self) -> (r: RecvFuture<'_, T>)
        ensures
            r.receiver() == *self,
    {
        RecvFuture { receiver: self }
    }
}

impl<T, S> Clone for Sender<T, S> {
    /// Another producer handle onto the same channel.
    fn clone(&self) -> (r: Self)
        ensures
            r.inner() == self.inner(),
    {
        Sender {
            inner: self.inner.clone(),
            _sender_ref: self._sender_ref.clone(),
            _state: PhantomData,
        }
    }
}

impl<T, S> Clone for Receiver<T, S> {
    /// Another consumer handle onto the same channel.
    fn clone(&self) -> (r: Self)
        ensures
            r.inner() == self.inner(),
    {
        Receiver { inner: self.inner.clone(), _state: PhantomData }
    }
}

/// Whether a producer handle is live, given how many handles share the channel's
/// producer counter: the channel keeps one for itself, and every producer handle holds
/// one more.
pub fn producers_live(counter_handles: usize) -> (r: bool)
    ensures
        r == (counter_handles > 1),
{
    counter_handles > 1
}

/// What a receive step means to the receive that made it: how far the receive has come,
/// and the task to wake.
pub open spec fn recv_progress<T>(step: RecvStep<T>) -> (Progress<Option<T>>, Option<Waker>) {
    match step {
        RecvStep::Received { value, wake } => (Progress::Ready(Some(value)), wake),
        RecvStep::Empty => (Progress::Pending, None),
        RecvStep::Closed => (Progress::Ready(None), None),
    }
}

/// Wakes the task that a step chose, if it chose one.
fn wake_one(chosen: Option<Waker>) {
    match chosen {
        Some(waker) => wake(waker),
        None => {},
    }
}

/// A send in progress.
#[verifier::reject_recursive_types(T)]
pub struct SendFuture<'a, T> {
    sender: &'a Sender<T, Open>,
    value: Option<T>,
}

impl<'a, T> SendFuture<'a, T> {
    /// The handle that the send was started on.
    pub closed spec fn sender(&self) -> Sender<T, Open> {
        *self.sender
    }

    /// The value that is still to be enqueued; `None` once the send is complete.
    pub closed spec fn pending(&self) -> Option<T> {
        self.value
    }

    /// Tries once to enqueue the pending value into `state`, on behalf of the task that
    /// `waker` wakes. Returns how far the send has come and the task to wake.
    ///
    /// A send that is already complete stays suspended and leaves `state` alone.
    /// Otherwise `state` makes one send step. With room in the buffer the value is
    /// enqueued, the send is complete, and the consumer that waited longest is to be
    /// woken. Without room the value stays pending, `waker` is registered, and the send
    /// is suspended. A send never fails.
    pub fn poll_on(&mut self, state: &mut ChannelState<T>, waker: Waker) -> (r: (
        Progress<Result<(), SendError>>,
        Option<Waker>,
    ))
        ensures
            final(self).sender() == old(self).sender(),
            old(self).pending() is None ==> {
                &&& r == (Progress::<Result<(), SendError>>::Pending, None::<Waker>)
                &&& final(self).pending() is None
                &&& final(state)@ == old(state)@
            },
            old(self).pending() matches Some(value) ==> {
                &&& final(state)@ == old(state)@.send(value, waker).0
                &&& final(state)@.well_formed()
                &&& match old(state)@.send(value, waker).1 {
                    SendStep::Sent { wake } => {
                        &&& r == (Progress::Ready(Ok::<(), SendError>(())), wake)
                        &&& final(self).pending() is None
                    },
                    SendStep::Full { value: returned } => {
                        &&& r == (Progress::<Result<(), SendError>>::Pending, None::<Waker>)
                        &&& final(self).pending() == Some(returned)
                    },
                }
            },
    {
        match self.value.take() {
            None => (Progress::Pending, None),
            Some(value) => match state.poll_send(value, waker) {
                SendStep::Sent { wake } => (Progress::Ready(Ok(())), wake),
                SendStep::Full { value } => {
                    self.value = Some(value);
                    (Progress::Pending, None)
                },
            },
        }
    }

    /// Tries once to enqueue the pending value into the shared channel: takes the
    /// channel's mutex, polls on the state found there as [`SendFuture::poll_on`] says,
    /// lets the mutex go and wakes the task that the step chose.
    pub fn poll(&mut self, waker: &Waker) -> (r: Progress<Result<(), SendError>>)
        ensures
            final(self).sender() == old(self).sender(),
            r == Progress::Ready(Ok::<(), SendError>(())) || r == Progress::<
                Result<(), SendError>,
            >::Pending,
            r is Ready ==> old(self).pending() is Some && final(self).pending() is None,
            r is Pending ==> final(self).pending() == old(self).pending(),
    {
        let (progress, chosen) = self.poll_shared(clone_waker(waker));
        wake_one(chosen);
        progress
    }

    /// Polls on the shared state, under its mutex.
    fn poll_shared(&mut self, waker: Waker) -> (r: (
        Progress<Result<(), SendError>>,
        Option<Waker>,
    ))
        ensures
            final(self).sender() == old(self).sender(),
            r.0 == Progress::Ready(Ok::<(), SendError>(())) || r.0 == Progress::<
                Result<(), SendError>,
            >::Pending,
            r.0 is Ready ==> old(self).pending() is Some && final(self).pending() is None,
            r.0 is Pending ==> final(self).pending() == old(self).pending(),
    {
        let mut guard = lock(&self.sender.inner.state);
        let state = guard_mut(&mut guard);
        self.poll_on(state, waker)
    }
}

/// A receive in progress.
#[verifier::reject_recursive_types(T)]
pub struct RecvFuture<'a, T> {
    receiver: &'a Receiver<T, Open>,
}

impl<'a, T> RecvFuture<'a, T> {
    /// The handle that the receive was started on.
    pub closed spec fn receiver(&self) -> Receiver<T, Open> {
        *self.receiver
    }

    /// Tries once to dequeue a value from `state`, on behalf of the task that `waker`
    /// wakes, while a producer handle is live or not, as `senders_alive` says. Returns
    /// how far the receive has come and the task to wake.
    ///
    /// `state` makes one receive step. A closed channel ends the receive with `None`.
    /// Otherwise the oldest value, if there is one, ends the receive, and the producer
    /// that waited longest is to be woken; if there is none, `waker` is registered and
    /// the receive is suspended.
    pub fn poll_on(
        &self,
        state: &mut ChannelState<T>,
        senders_alive: bool,
        waker: Waker,
    ) -> (r: (Progress<Option<T>>, Option<Waker>))
        ensures
            old(state)@.well_formed(),
            final(state)@.well_formed(),
            final(state)@ == old(state)@.recv(senders_alive, waker).0,
            r == recv_progress(old(state)@.recv(senders_alive, waker).1),
    {
        match state.poll_recv(senders_alive, waker) {
            RecvStep::Received { value, wake } => (Progress::Ready(Some(value)), wake),
            RecvStep::Empty => (Progress::Pending, None),
            RecvStep::Closed => (Progress::Ready(None), None),
        }
    }

    /// Tries once to dequeue a value from the shared channel: looks whether a producer
    /// handle is live, takes the channel's mutex, polls on the state found there as
    /// [`RecvFuture::poll_on`] says, lets the mutex go and wakes the task that the step
    /// chose.
    pub fn poll(&mut self, waker: &Waker) -> (r: Progress<Option<T>>)
        ensures
            final(self).receiver() == old(self).receiver(),
    {
        let senders_alive = producers_live(strong_count(&self.receiver.inner.sender_count));
        let (progress, chosen) = self.poll_shared(senders_alive, clone_waker(waker));
        wake_one(chosen);
        progress
    }

    /// Polls on the shared state, under its mutex: the result is that of one receive
    /// step, made with `senders_alive` and `waker`, on the state that the mutex holds.
    ///
    /// Whatever that state is, the receive is suspended only while a producer is live,
    /// it ends with `None` only when none is, and only a receive that returns a value
    /// has a producer to wake.
    fn poll_shared(&self, senders_alive: bool, waker: Waker) -> (r: (
        Progress<Option<T>>,
        Option<Waker>,
    ))
        ensures
            exists|found: ChannelView<T>|
                found.well_formed() && r == recv_progress(
                    (#[trigger] found.recv(senders_alive, waker)).1,
                ),
            r.0 is Pending ==> senders_alive && r.1 is None,
            r.0 == Progress::Ready(None::<T>) ==> !senders_alive && r.1 is None,
    {
        let mut guard = lock(&self.receiver.inner.state);
        let state = guard_mut(&mut guard);
        let ghost found = state@;
        let r = self.poll_on(state, senders_alive, waker);
        assert(found.well_formed() && r == recv_progress(found.recv(senders_alive, waker).1));
        r
    }
}

} // verus!
