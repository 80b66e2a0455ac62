//! A bounded multi-producer multi-consumer channel.
//!
//! * [`ring_buffer`] is the storage: a fixed-capacity ring with non-blocking push and pop.
//! * [`state`] is the channel as a sequential state machine: the ring, the wait-lists of
//!   suspended producers and consumers, and the step that one poll of a send or of a
//!   receive makes.
//! * [`trace`] states what holds of every history of such steps: no loss, no
//!   duplication, first in first out, backpressure, drain-then-close.
//! * [`channel`] shares one state between cloneable handles, behind a mutex.
//! * [`sync`] holds the parts of `std` that the handles rest on.

pub mod channel;
pub mod ring_buffer;
pub mod state;
pub mod sync;
pub mod trace;
