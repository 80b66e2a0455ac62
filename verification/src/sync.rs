//! The pieces of `std` that the channel shares state and wakes tasks through.
//!
//! Nothing here is proved: each item states, as far as anything can be stated, what the
//! documentation of the function it calls promises.

use std::sync::Arc;
use std::sync::Mutex;
use std::sync::MutexGuard;
use std::task::Waker;
use vstd::prelude::*;

verus! {

/// `std::task::Waker`: a handle that wakes one suspended task. Its content is hidden.
#[verifier::external_type_specification]
#[verifier::external_body]
pub struct ExWaker(Waker);

/// `std::sync::Mutex`: mutual exclusion around a value. Its content is hidden.
#[verifier::external_type_specification]
#[verifier::external_body]
#[verifier::reject_recursive_types(T)]
pub struct ExMutex<T: ?Sized>(Mutex<T>);

/// `std::sync::MutexGuard`: exclusive access to the value of a locked mutex, which is
/// unlocked when the guard goes out of scope.
#[verifier::external_type_specification]
#[verifier::external_body]
#[verifier::reject_recursive_types(T)]
pub struct ExMutexGuard<'a, T: ?Sized + 'a>(MutexGuard<'a, T>);

/// Calls `Mutex::new`. Nothing is claimed of the result.
#[verifier::external_body]
pub(crate) fn new_mutex<S>(value: S) -> Mutex<S> {
    Mutex::new(value)
}

/// Calls `Mutex::lock` and waits until the mutex is free. A poisoned mutex is entered
/// all the same, through `PoisonError::into_inner`. Nothing is claimed of the value
/// found inside: other threads decide it.
///
/// `std` may panic or block forever when the calling thread already holds the mutex, so
/// a caller lets each guard go before it locks again.
#[verifier::external_body]
pub(crate) fn lock<S>(mutex: &Mutex<S>) -> MutexGuard<'_, S> {
    match mutex.lock() {
        Ok(guard) => guard,
        Err(poisoned) => poisoned.into_inner(),
    }
}

/// Calls `DerefMut::deref_mut` on a guard: the value that the mutex protects.
#[verifier::external_body]
pub(crate) fn guard_mut<'a, 'b, S>(guard: &'a mut MutexGuard<'b, S>) -> &'a mut S {
    &mut **guard
}

/// Calls `Waker::wake`, which asks the executor to poll the task again. Nothing is
/// claimed of its effect.
#[verifier::external_body]
pub(crate) fn wake(waker: Waker) {
    waker.wake()
}

/// Calls `Clone::clone` on a waker. Nothing is claimed of the copy.
#[verifier::external_body]
pub(crate) fn clone_waker(waker: &Waker) -> Waker {
    waker.clone()
}

/// Calls `Arc::strong_count`: how many `Arc` handles share the allocation right now.
/// Nothing is claimed of the number: handles come and go with other threads.
#[verifier::external_body]
pub(crate) fn strong_count(shared: &Arc<()>) -> usize {
    Arc::strong_count(shared)
}

} // verus!
