//! Histories of polls, and what holds of every one of them.
//!
//! Under the channel's mutex the polls of all handles happen one after another. An
//! [`Event`] is one such poll, and a sequence of events is a history. The laws below
//! speak of [`ChannelView::run`], which makes the steps of a history in turn; each step
//! is the one that [`crate::state::ChannelState::poll_send`] and
//! [`crate::state::ChannelState::poll_recv`] are proved to make.

use crate::state::ChannelView;
use crate::state::RecvStep;
use crate::state::SendStep;
use crate::state::first_waiter;
use crate::state::later_waiters;
use std::task::Waker;
use vstd::prelude::*;
use vstd::seq_lib::lemma_multiset_commutative;

verus! {

/// One poll made on a channel.
pub enum Event<T> {
    /// A poll of a send of `value` by the task that `waker` wakes.
    Send { value: T, waker: Waker },
    /// A poll of a receive by the task that `waker` wakes, at a moment when a producer
    /// handle is live or not, as `senders_alive` says.
    Recv { senders_alive: bool, waker: Waker },
}

/// What one poll returned.
pub enum Outcome<T> {
    Send(SendStep<T>),
    Recv(RecvStep<T>),
}

/// Whether every event of a history is a poll of a send.
pub open spec fn only_sends<T>(events: Seq<Event<T>>) -> bool {
    forall|i: int| 0 <= i < events.len() ==> (#[trigger] events[i]) is Send
}

/// Whether every event of a history is a poll of a receive made when no producer
/// handle is left.
pub open spec fn only_recvs_after_close<T>(events: Seq<Event<T>>) -> bool {
    forall|i: int|
        0 <= i < events.len() ==> (#[trigger] events[i]) matches Event::Recv {
            senders_alive: false,
            ..
        }
}

impl<T> ChannelView<T> {
    /// The state after one poll.
    pub open spec fn step(self, event: Event<T>) -> Self {
        match event {
            Event::Send { value, waker } => self.send(value, waker).0,
            Event::Recv { senders_alive, waker } => self.recv(senders_alive, waker).0,
        }
    }

    /// What one poll returns.
    pub open spec fn outcome(self, event: Event<T>) -> Outcome<T> {
        match event {
            Event::Send { value, waker } => Outcome::Send(self.send(value, waker).1),
            Event::Recv { senders_alive, waker } => Outcome::Recv(
                self.recv(senders_alive, waker).1,
            ),
        }
    }

    /// The state after a history of polls.
    pub open spec fn run(self, events: Seq<Event<T>>) -> Self
        decreases events.len(),
    {
        if events.len() == 0 {
            self
        } else {
            self.run(events.drop_last()).step(events.last())
        }
    }

    /// What the polls of a history returned, in order.
    pub open spec fn outcomes(self, events: Seq<Event<T>>) -> Seq<Outcome<T>>
        decreases events.len(),
    {
        if events.len() == 0 {
            Seq::empty()
        } else {
            self.outcomes(events.drop_last()).push(
                self.run(events.drop_last()).outcome(events.last()),
            )
        }
    }

    /// The values whose send completed during a history, in the order of completion.
    pub open spec fn accepted(self, events: Seq<Event<T>>) -> Seq<T>
        decreases events.len(),
    {
        if events.len() == 0 {
            Seq::empty()
        } else {
            let earlier = self.accepted(events.drop_last());
            match self.run(events.drop_last()).outcome(events.last()) {
                Outcome::Send(SendStep::Sent { .. }) => earlier.push(events.last()->value),
                _ => earlier,
            }
        }
    }

    /// The wakers that a history put on the wait-list of one side, in the order of
    /// registration: those of suspended sends if `producers`, else those of suspended
    /// receives.
    pub open spec fn registered(self, events: Seq<Event<T>>, producers: bool) -> Seq<Waker>
        decreases events.len(),
    {
        if events.len() == 0 {
            Seq::empty()
        } else {
            let earlier = self.registered(events.drop_last(), producers);
            match (self.run(events.drop_last()).outcome(events.last()), events.last()) {
                (Outcome::Send(SendStep::Full { .. }), Event::Send { waker, .. }) => if producers {
                    earlier.push(waker)
                } else {
                    earlier
                },
                (Outcome::Recv(RecvStep::Empty), Event::Recv { waker, .. }) => if producers {
                    earlier
                } else {
                    earlier.push(waker)
                },
                _ => earlier,
            }
        }
    }

    /// The wakers that a history took off the wait-list of one side to be woken, in the
    /// order of waking: producers woken by receives if `producers`, else consumers
    /// woken by sends.
    pub open spec fn woken(self, events: Seq<Event<T>>, producers: bool) -> Seq<Waker>
        decreases events.len(),
    {
        if events.len() == 0 {
            Seq::empty()
        } else {
            let earlier = self.woken(events.drop_last(), producers);
            match self.run(events.drop_last()).outcome(events.last()) {
                Outcome::Send(SendStep::Sent { wake: Some(waker) }) => if producers {
                    earlier
                } else {
                    earlier.push(waker)
                },
                Outcome::Recv(RecvStep::Received { wake: Some(waker), .. }) => if producers {
                    earlier.push(waker)
                } else {
                    earlier
                },
                _ => earlier,
            }
        }
    }

    /// The values that receives returned during a history, in the order of return.
    pub open spec fn received(self, events: Seq<Event<T>>) -> Seq<T>
        decreases events.len(),
    {
        if events.len() == 0 {
            Seq::empty()
        } else {
            let earlier = self.received(events.drop_last());
            match self.run(events.drop_last()).outcome(events.last()) {
                Outcome::Recv(RecvStep::Received { value, .. }) => earlier.push(value),
                _ => earlier,
            }
        }
    }
}

/// The entry of a wait-list at position `i`, if it reaches that far.
pub open spec fn waiter_at(list: Seq<Waker>, i: int) -> Option<Waker> {
    if 0 <= i < list.len() {
        Some(list[i])
    } else {
        None
    }
}

/// A wait-list after its first `woken` entries, or all of them if it has fewer, have
/// left it.
pub open spec fn after_waking(list: Seq<Waker>, woken: int) -> Seq<Waker> {
    if 0 <= woken < list.len() {
        list.skip(woken)
    } else if woken <= 0 {
        list
    } else {
        Seq::empty()
    }
}

/// How many of `sends` polls of sends complete when no receive comes in between: as
/// many as there is room for.
pub open spec fn completed<T>(start: ChannelView<T>, sends: nat) -> nat {
    if start.queue.len() + sends < start.capacity {
        sends
    } else {
        (start.capacity - 1 - start.queue.len()) as nat
    }
}

/// How many values have left the buffer after `recvs` polls of receives with no send
/// in between: each poll takes one until none is left.
pub open spec fn drained<T>(start: ChannelView<T>, recvs: nat) -> int {
    if recvs < start.queue.len() {
        recvs as int
    } else {
        start.queue.len() as int
    }
}

proof fn lemma_wake_none(list: Seq<Waker>)
    ensures
        after_waking(list, 0) == list,
{
}

proof fn lemma_wake_one_more(list: Seq<Waker>, woken: int)
    requires
        0 <= woken,
    ensures
        first_waiter(after_waking(list, woken)) == waiter_at(list, woken),
        later_waiters(after_waking(list, woken)) == after_waking(list, woken + 1),
{
    if woken < list.len() {
        assert(list.skip(woken).drop_first() == list.skip(woken + 1));
    }
}

proof fn lemma_drop_last_only_sends<T>(events: Seq<Event<T>>)
    requires
        only_sends(events),
        events.len() > 0,
    ensures
        only_sends(events.drop_last()),
        events.last() is Send,
{
    assert forall|i: int| 0 <= i < events.drop_last().len() implies (
    #[trigger] events.drop_last()[i]) is Send by {
        assert(events.drop_last()[i] == events[i]);
    }
    assert(events.last() == events[events.len() - 1]);
}

proof fn lemma_drop_last_only_recvs<T>(events: Seq<Event<T>>)
    requires
        only_recvs_after_close(events),
        events.len() > 0,
    ensures
        only_recvs_after_close(events.drop_last()),
        events.last() matches Event::Recv { senders_alive: false, .. },
{
    assert forall|i: int| 0 <= i < events.drop_last().len() implies (
    #[trigger] events.drop_last()[i]) matches Event::Recv { senders_alive: false, .. } by {
        assert(events.drop_last()[i] == events[i]);
    }
    assert(events.last() == events[events.len() - 1]);
}

/// A history made of two parts is the first part, then the second part run from where
/// the first one ended.
proof fn lemma_run_append<T>(
    start: ChannelView<T>,
    first: Seq<Event<T>>,
    second: Seq<Event<T>>,
)
    ensures
        start.run(first + second) == start.run(first).run(second),
        start.outcomes(first + second) == start.outcomes(first) + start.run(first).outcomes(
            second,
        ),
    decreases second.len(),
{
    if second.len() == 0 {
        assert(first + second == first);
        assert(start.outcomes(first) + Seq::<Outcome<T>>::empty() == start.outcomes(first));
    } else {
        assert((first + second).drop_last() == first + second.drop_last());
        lemma_run_append(start, first, second.drop_last());
        assert((start.outcomes(first) + start.run(first).outcomes(second.drop_last())).push(
            start.run(first + second.drop_last()).outcome(second.last()),
        ) == start.outcomes(first) + start.run(first).outcomes(second));
    }
}

/// A history never changes the capacity, and never buffers more than `capacity - 1`
/// values.
pub proof fn law_run_keeps_bounds<T>(start: ChannelView<T>, events: Seq<Event<T>>)
    requires
        start.well_formed(),
    ensures
        start.run(events).well_formed(),
        start.run(events).capacity == start.capacity,
        start.outcomes(events).len() == events.len(),
    decreases events.len(),
{
    if events.len() > 0 {
        law_run_keeps_bounds(start, events.drop_last());
    }
}

/// Conservation: whatever was buffered at the start or accepted since is, in this very
/// order, what has been received followed by what is still buffered. Nothing is lost,
/// nothing appears twice, nothing changes place.
pub proof fn law_conservation<T>(start: ChannelView<T>, events: Seq<Event<T>>)
    ensures
        start.queue + start.accepted(events) == start.received(events) + start.run(events).queue,
    decreases events.len(),
{
    if events.len() > 0 {
        let earlier = events.drop_last();
        let before = start.run(earlier);
        law_conservation(start, earlier);
        match before.outcome(events.last()) {
            Outcome::Send(SendStep::Sent { .. }) => {
                let value = events.last()->value;
                assert(start.queue + start.accepted(earlier).push(value) == (start.queue
                    + start.accepted(earlier)).push(value));
                assert((start.received(earlier) + before.queue).push(value) == start.received(
                    earlier,
                ) + before.queue.push(value));
            },
            Outcome::Recv(RecvStep::Received { value, .. }) => {
                assert(start.received(earlier).push(value) + before.queue.drop_first()
                    == start.received(earlier) + before.queue);
            },
            _ => {},
        }
    }
}

/// Wake-ups are first come, first served, and none is lost: the wakers that waited at
/// the start or were registered since are, in this very order, those that have been
/// woken followed by those that still wait. This holds of the producers' wait-list and
/// of the consumers' wait-list.
pub proof fn law_wakeups_in_order<T>(start: ChannelView<T>, events: Seq<Event<T>>)
    ensures
        start.waiting_senders + start.registered(events, true) == start.woken(events, true)
            + start.run(events).waiting_senders,
        start.waiting_receivers + start.registered(events, false) == start.woken(events, false)
            + start.run(events).waiting_receivers,
    decreases events.len(),
{
    if events.len() > 0 {
        let earlier = events.drop_last();
        let before = start.run(earlier);
        law_wakeups_in_order(start, earlier);
        match (before.outcome(events.last()), events.last()) {
            (Outcome::Send(SendStep::Full { .. }), Event::Send { waker, .. }) => {
                assert(start.waiting_senders + start.registered(earlier, true).push(waker) == (
                start.waiting_senders + start.registered(earlier, true)).push(waker));
                assert((start.woken(earlier, true) + before.waiting_senders).push(waker)
                    == start.woken(earlier, true) + before.waiting_senders.push(waker));
            },
            (Outcome::Recv(RecvStep::Empty), Event::Recv { waker, .. }) => {
                assert(start.waiting_receivers + start.registered(earlier, false).push(waker) == (
                start.waiting_receivers + start.registered(earlier, false)).push(waker));
                assert((start.woken(earlier, false) + before.waiting_receivers).push(waker)
                    == start.woken(earlier, false) + before.waiting_receivers.push(waker));
            },
            (Outcome::Send(SendStep::Sent { wake: Some(waker) }), _) => {
                assert(start.woken(earlier, false).push(waker)
                    + before.waiting_receivers.drop_first() == start.woken(earlier, false)
                    + before.waiting_receivers);
            },
            (Outcome::Recv(RecvStep::Received { wake: Some(waker), .. }), _) => {
                assert(start.woken(earlier, true).push(waker) + before.waiting_senders.drop_first()
                    == start.woken(earlier, true) + before.waiting_senders);
            },
            _ => {},
        }
    }
}

/// No loss, no duplication: the values received from a channel that started empty,
/// together with the values still buffered, are as a multiset the values accepted. Once
/// the channel is drained the received values are the accepted ones, each exactly once.
pub proof fn law_no_loss_no_duplication<T>(start: ChannelView<T>, events: Seq<Event<T>>)
    requires
        start.queue.len() == 0,
    ensures
        start.accepted(events).to_multiset() == start.received(events).to_multiset().add(
            start.run(events).queue.to_multiset(),
        ),
        start.run(events).queue.len() == 0 ==> start.received(events).to_multiset()
            == start.accepted(events).to_multiset(),
        start.run(events).queue.len() == 0 ==> start.received(events) == start.accepted(events),
{
    law_conservation(start, events);
    lemma_multiset_commutative(start.received(events), start.run(events).queue);
    assert(start.queue + start.accepted(events) == start.accepted(events));
    if start.run(events).queue.len() == 0 {
        assert(start.received(events) + start.run(events).queue == start.received(events));
    }
}

/// First in, first out: on a channel that started empty the values come out in the
/// order in which they were accepted, so the received values are a prefix of the
/// accepted ones. The same holds of the values of any one producer, picked out by
/// `from_producer`: they are received in the order in which that producer sent them,
/// however the values of others are interleaved.
pub proof fn law_fifo<T>(
    start: ChannelView<T>,
    events: Seq<Event<T>>,
    from_producer: spec_fn(T) -> bool,
)
    requires
        start.queue.len() == 0,
    ensures
        start.received(events).is_prefix_of(start.accepted(events)),
        start.received(events).filter(from_producer).is_prefix_of(
            start.accepted(events).filter(from_producer),
        ),
{
    let accepted = start.accepted(events);
    let received = start.received(events);
    let buffered = start.run(events).queue;
    law_conservation(start, events);
    assert(start.queue + accepted == accepted);
    assert(accepted == received + buffered);
    assert(received == accepted.subrange(0, received.len() as int));
    Seq::filter_distributes_over_add(received, buffered, from_producer);
    assert(received.filter(from_producer) == accepted.filter(from_producer).subrange(
        0,
        received.filter(from_producer).len() as int,
    ));
}

/// Sends fill the buffer, then block: of a run of sends with no receive in between,
/// exactly those complete that find fewer than `capacity - 1` values buffered, each
/// waking the consumer that waited longest. Each of the others has its value handed
/// back and its waker put on the producers' wait-list, and never completes, however
/// often it is polled, until a receive makes room.
pub proof fn law_sends_fill_then_block<T>(start: ChannelView<T>, events: Seq<Event<T>>)
    requires
        start.well_formed(),
        only_sends(events),
    ensures
        start.outcomes(events).len() == events.len(),
        forall|i: int|
            0 <= i < events.len() ==> (#[trigger] start.outcomes(events)[i]) == (if start.queue.len()
                + i + 1 < start.capacity {
                Outcome::Send(SendStep::Sent { wake: waiter_at(start.waiting_receivers, i) })
            } else {
                Outcome::Send(SendStep::Full { value: events[i]->value })
            }),
        start.run(events) == (ChannelView {
            capacity: start.capacity,
            queue: start.queue + Seq::new(
                completed(start, events.len()),
                |i: int| events[i]->value,
            ),
            waiting_senders: start.waiting_senders + Seq::new(
                (events.len() - completed(start, events.len())) as nat,
                |i: int| events[completed(start, events.len()) + i]->Send_waker,
            ),
            waiting_receivers: after_waking(
                start.waiting_receivers,
                completed(start, events.len()) as int,
            ),
        }),
    decreases events.len(),
{
    let after = ChannelView {
        capacity: start.capacity,
        queue: start.queue + Seq::new(completed(start, events.len()), |i: int| events[i]->value),
        waiting_senders: start.waiting_senders + Seq::new(
            (events.len() - completed(start, events.len())) as nat,
            |i: int| events[completed(start, events.len()) + i]->Send_waker,
        ),
        waiting_receivers: after_waking(
            start.waiting_receivers,
            completed(start, events.len()) as int,
        ),
    };
    if events.len() > 0 {
        let earlier = events.drop_last();
        let before = start.run(earlier);
        lemma_drop_last_only_sends(events);
        law_sends_fill_then_block(start, earlier);
        let done = completed(start, earlier.len());
        if !before.is_full() {
            lemma_wake_one_more(start.waiting_receivers, done as int);
        }
        assert(start.run(events).queue == after.queue);
        assert(start.run(events).waiting_senders == after.waiting_senders);
        assert(start.run(events).waiting_receivers == after.waiting_receivers);
        assert forall|i: int| 0 <= i < events.len() implies (#[trigger] start.outcomes(events)[i])
            == (if start.queue.len() + i + 1 < start.capacity {
            Outcome::Send(SendStep::Sent { wake: waiter_at(start.waiting_receivers, i) })
        } else {
            Outcome::Send(SendStep::Full { value: events[i]->value })
        }) by {
            if i < earlier.len() {
                assert(start.outcomes(events)[i] == start.outcomes(earlier)[i]);
                assert(earlier[i] == events[i]);
            }
        }
    } else {
        lemma_wake_none(start.waiting_receivers);
        assert(start.queue == after.queue);
        assert(start.waiting_senders == after.waiting_senders);
    }
}

/// Backpressure blocks and unblocks: on a fresh channel of `capacity` slots the first
/// `capacity - 1` sends complete at once. Every poll of a send after them is suspended,
/// its value handed back, for as long as no receive is made. The first receive returns
/// the oldest value and wakes the producer that was suspended first, and a send polled
/// after it completes.
pub proof fn law_backpressure<T>(
    capacity: nat,
    filling: Seq<Event<T>>,
    blocked: Seq<Event<T>>,
    receive: Event<T>,
    retry: Event<T>,
)
    requires
        capacity >= 2,
        only_sends(filling),
        filling.len() == capacity - 1,
        only_sends(blocked),
        receive is Recv,
        retry is Send,
    ensures
        ({
            let history = (filling + blocked).push(receive).push(retry);
            let outcomes = ChannelView::<T>::empty(capacity).outcomes(history);
            &&& outcomes.len() == filling.len() + blocked.len() + 2
            &&& forall|i: int|
                0 <= i < filling.len() ==> (#[trigger] outcomes[i]) == Outcome::<T>::Send(
                    SendStep::Sent { wake: None },
                )
            &&& forall|i: int|
                0 <= i < blocked.len() ==> (#[trigger] outcomes[filling.len() + i])
                    == Outcome::Send(SendStep::Full { value: blocked[i]->value })
            &&& outcomes[(filling.len() + blocked.len()) as int] == Outcome::Recv(
                RecvStep::Received {
                    value: filling[0]->value,
                    wake: if blocked.len() > 0 {
                        Some(blocked[0]->Send_waker)
                    } else {
                        None
                    },
                },
            )
            &&& outcomes[(filling.len() + blocked.len() + 1) as int] == Outcome::<T>::Send(
                SendStep::Sent { wake: None },
            )
        }),
{
    let start = ChannelView::<T>::empty(capacity);
    let sends = filling + blocked;
    let full = start.run(sends);
    assert(only_sends(sends)) by {
        assert forall|i: int| 0 <= i < sends.len() implies (#[trigger] sends[i]) is Send by {
            if i < filling.len() {
                assert(sends[i] == filling[i]);
            } else {
                assert(sends[i] == blocked[i - filling.len()]);
            }
        }
    }
    law_sends_fill_then_block(start, sends);
    assert(completed(start, sends.len()) == filling.len());
    assert(full.queue == Seq::new(filling.len(), |i: int| filling[i]->value));
    assert(full.waiting_senders == Seq::new(blocked.len(), |i: int| blocked[i]->Send_waker));
    assert(full.waiting_receivers == Seq::<Waker>::empty());
    let received = sends.push(receive);
    let history = received.push(retry);
    assert(received.drop_last() == sends);
    assert(history.drop_last() == received);
    assert(start.run(received) == full.step(receive));
    assert(start.outcomes(received) == start.outcomes(sends).push(full.outcome(receive)));
    assert(start.outcomes(history) == start.outcomes(received).push(
        start.run(received).outcome(retry),
    ));
    let outcomes = start.outcomes(history);
    assert forall|i: int| 0 <= i < sends.len() implies (#[trigger] outcomes[i])
        == start.outcomes(sends)[i] by {}
    assert forall|i: int| 0 <= i < filling.len() implies (#[trigger] outcomes[i]) == Outcome::<
        T,
    >::Send(SendStep::Sent { wake: None }) by {
        assert(outcomes[i] == start.outcomes(sends)[i]);
    }
    assert forall|i: int| 0 <= i < blocked.len() implies (#[trigger] outcomes[filling.len() + i])
        == Outcome::Send(SendStep::Full { value: blocked[i]->value }) by {
        assert(sends[filling.len() + i] == blocked[i]);
        assert(outcomes[filling.len() + i] == start.outcomes(sends)[filling.len() + i]);
    }
}

/// Draining after the last producer is gone: receives made when no producer handle is
/// left return the buffered values oldest first, each waking the producer that waited
/// longest, and once the buffer is empty every receive reports the end of the channel.
pub proof fn law_drain<T>(start: ChannelView<T>, events: Seq<Event<T>>)
    requires
        only_recvs_after_close(events),
    ensures
        start.outcomes(events).len() == events.len(),
        forall|j: int|
            0 <= j < events.len() ==> (#[trigger] start.outcomes(events)[j]) == (if j
                < start.queue.len() {
                Outcome::Recv(
                    RecvStep::Received {
                        value: start.queue[j],
                        wake: waiter_at(start.waiting_senders, j),
                    },
                )
            } else {
                Outcome::Recv(RecvStep::Closed)
            }),
        start.run(events).queue == start.queue.skip(drained(start, events.len())),
        start.run(events).waiting_senders == after_waking(
            start.waiting_senders,
            drained(start, events.len()),
        ),
    decreases events.len(),
{
    if events.len() > 0 {
        let earlier = events.drop_last();
        let before = start.run(earlier);
        lemma_drop_last_only_recvs(events);
        law_drain(start, earlier);
        let taken = earlier.len() as int;
        if taken < start.queue.len() {
            assert(start.queue.skip(taken).drop_first() == start.queue.skip(taken + 1));
            lemma_wake_one_more(start.waiting_senders, taken);
        }
        assert forall|j: int| 0 <= j < events.len() implies (#[trigger] start.outcomes(events)[j])
            == (if j < start.queue.len() {
            Outcome::Recv(
                RecvStep::Received {
                    value: start.queue[j],
                    wake: waiter_at(start.waiting_senders, j),
                },
            )
        } else {
            Outcome::Recv(RecvStep::Closed)
        }) by {
            if j < earlier.len() {
                assert(start.outcomes(events)[j] == start.outcomes(earlier)[j]);
            }
        }
    } else {
        assert(start.queue.skip(0) == start.queue);
        lemma_wake_none(start.waiting_senders);
    }
}

/// Drain, then close: on a fresh channel of `capacity` slots, at most `capacity - 1`
/// sends all complete at once. If every producer handle is then dropped, as many
/// receives return the values in the order sent, and every receive after them reports
/// the end of the channel.
pub proof fn law_drain_then_close<T>(capacity: nat, sends: Seq<Event<T>>, recvs: Seq<Event<T>>)
    requires
        only_sends(sends),
        sends.len() + 1 <= capacity,
        only_recvs_after_close(recvs),
    ensures
        ({
            let outcomes = ChannelView::<T>::empty(capacity).outcomes(sends + recvs);
            &&& outcomes.len() == sends.len() + recvs.len()
            &&& forall|i: int|
                0 <= i < sends.len() ==> (#[trigger] outcomes[i]) == Outcome::<T>::Send(
                    SendStep::Sent { wake: None },
                )
            &&& forall|j: int|
                0 <= j < recvs.len() ==> (#[trigger] outcomes[sends.len() + j]) == (if j
                    < sends.len() {
                    Outcome::Recv(RecvStep::Received { value: sends[j]->value, wake: None })
                } else {
                    Outcome::Recv(RecvStep::Closed)
                })
        }),
{
    let start = ChannelView::<T>::empty(capacity);
    let filled = start.run(sends);
    lemma_run_append(start, sends, recvs);
    law_sends_fill_then_block(start, sends);
    law_drain(filled, recvs);
    assert(filled.queue == Seq::new(sends.len(), |i: int| sends[i]->value));
    assert(filled.waiting_senders == Seq::<Waker>::empty());
    let outcomes = start.outcomes(sends + recvs);
    assert forall|j: int| 0 <= j < recvs.len() implies (#[trigger] outcomes[sends.len() + j]) == (if j
        < sends.len() {
        Outcome::Recv(RecvStep::Received { value: sends[j]->value, wake: None })
    } else {
        Outcome::Recv(RecvStep::Closed)
    }) by {
        assert(outcomes[sends.len() + j] == filled.outcomes(recvs)[j]);
    }
    assert forall|i: int| 0 <= i < sends.len() implies (#[trigger] outcomes[i]) == Outcome::<
        T,
    >::Send(SendStep::Sent { wake: None }) by {
        assert(outcomes[i] == start.outcomes(sends)[i]);
    }
}

} // verus!
