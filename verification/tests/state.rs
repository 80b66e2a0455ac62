use mpmc_channel::state::ChannelState;
use mpmc_channel::state::Phase;
use mpmc_channel::state::RecvStep;
use mpmc_channel::state::SendStep;
use std::sync::Arc;
use std::task::Wake;
use std::task::Waker;

/// A waker that does nothing; two of them wake the same task only if they are clones.
struct Task;

impl Wake for Task {
    fn wake(self: Arc<Self>) {}
}

fn task() -> Waker {
    Waker::from(Arc::new(Task))
}

fn sent<T>(step: SendStep<T>) -> Option<Waker> {
    match step {
        SendStep::Sent { wake } => wake,
        SendStep::Full { .. } => panic!("the buffer had room"),
    }
}

fn handed_back<T>(step: SendStep<T>) -> T {
    match step {
        SendStep::Sent { .. } => panic!("the buffer was full"),
        SendStep::Full { value } => value,
    }
}

fn got<T>(step: RecvStep<T>) -> (T, Option<Waker>) {
    match step {
        RecvStep::Received { value, wake } => (value, wake),
        RecvStep::Empty => panic!("a value was buffered"),
        RecvStep::Closed => panic!("a value was buffered"),
    }
}

#[test]
fn fresh_state_is_open_or_closed_by_its_senders() {
    let state: ChannelState<u8> = ChannelState::new(4);
    assert_eq!(state.phase(true), Phase::Open);
    assert_eq!(state.phase(false), Phase::Closed);
}

#[test]
fn phases_follow_senders_and_buffer() {
    let mut state: ChannelState<u8> = ChannelState::new(4);
    assert!(sent(state.poll_send(1, task())).is_none());
    assert_eq!(state.phase(true), Phase::Open);
    assert_eq!(state.phase(false), Phase::Closing);
    let (value, wake) = got(state.poll_recv(false, task()));
    assert_eq!(value, 1);
    assert!(wake.is_none());
    assert_eq!(state.phase(false), Phase::Closed);
    assert!(matches!(state.poll_recv(false, task()), RecvStep::Closed));
    assert!(matches!(state.poll_recv(false, task()), RecvStep::Closed));
    assert_eq!(state.phase(true), Phase::Open);
    assert!(matches!(state.poll_recv(true, task()), RecvStep::Empty));
}

#[test]
fn full_buffer_hands_the_value_back_and_parks_the_sender() {
    let mut state: ChannelState<String> = ChannelState::new(2);
    assert!(sent(state.poll_send(String::from("a"), task())).is_none());
    let parked = task();
    assert_eq!(handed_back(state.poll_send(String::from("b"), parked.clone())), "b");
    let (value, wake) = got(state.poll_recv(true, task()));
    assert_eq!(value, "a");
    assert!(wake.unwrap().will_wake(&parked));
    assert!(sent(state.poll_send(String::from("b"), task())).is_none());
    let (value, wake) = got(state.poll_recv(true, task()));
    assert_eq!(value, "b");
    assert!(wake.is_none());
}

#[test]
fn waiting_receivers_are_woken_first_come_first_served() {
    let mut state: ChannelState<u8> = ChannelState::new(8);
    let first = task();
    let second = task();
    assert!(matches!(state.poll_recv(true, first.clone()), RecvStep::Empty));
    assert!(matches!(state.poll_recv(true, second.clone()), RecvStep::Empty));
    let woken = sent(state.poll_send(1, task())).unwrap();
    assert!(woken.will_wake(&first));
    assert!(!woken.will_wake(&second));
    let woken = sent(state.poll_send(2, task())).unwrap();
    assert!(woken.will_wake(&second));
    assert!(sent(state.poll_send(3, task())).is_none());
}

#[test]
fn waiting_senders_are_woken_first_come_first_served() {
    let mut state: ChannelState<u8> = ChannelState::new(2);
    assert!(sent(state.poll_send(1, task())).is_none());
    let first = task();
    let second = task();
    assert_eq!(handed_back(state.poll_send(2, first.clone())), 2);
    assert_eq!(handed_back(state.poll_send(3, second.clone())), 3);
    let (value, wake) = got(state.poll_recv(true, task()));
    assert_eq!(value, 1);
    assert!(wake.unwrap().will_wake(&first));
    assert!(sent(state.poll_send(2, task())).is_none());
    let (value, wake) = got(state.poll_recv(false, task()));
    assert_eq!(value, 2);
    assert!(wake.unwrap().will_wake(&second));
    assert!(matches!(state.poll_recv(false, task()), RecvStep::Closed));
}

#[test]
fn closed_state_registers_no_waker() {
    let mut state: ChannelState<u8> = ChannelState::new(4);
    assert!(matches!(state.poll_recv(false, task()), RecvStep::Closed));
    assert!(sent(state.poll_send(1, task())).is_none());
}

#[test]
fn capacity_one_never_accepts() {
    let mut state: ChannelState<u8> = ChannelState::new(1);
    assert_eq!(handed_back(state.poll_send(1, task())), 1);
    assert!(matches!(state.poll_recv(true, task()), RecvStep::Empty));
    assert_eq!(handed_back(state.poll_send(1, task())), 1);
    assert!(matches!(state.poll_recv(false, task()), RecvStep::Closed));
}

#[test]
fn sends_fill_then_block_from_any_fill_level() {
    for capacity in [2usize, 4, 16] {
        for drained in 0..capacity - 1 {
            let mut state: ChannelState<usize> = ChannelState::new(capacity);
            for v in 0..capacity - 1 {
                assert!(sent(state.poll_send(v, task())).is_none());
            }
            for v in 0..drained {
                assert_eq!(got(state.poll_recv(true, task())).0, v);
            }
            for v in 0..drained {
                assert!(sent(state.poll_send(100 + v, task())).is_none());
            }
            assert_eq!(handed_back(state.poll_send(7, task())), 7);
            assert_eq!(handed_back(state.poll_send(8, task())), 8);
        }
    }
}
