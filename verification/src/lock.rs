//! Taking the lock on the shared state.

use std::sync::{Mutex, MutexGuard, PoisonError};

use vstd::prelude::*;

use crate::mem::MemState;

verus! {

/// `std::sync::Mutex`, opaque.
#[verifier::external_type_specification]
#[verifier::external_body]
#[verifier::reject_recursive_types(T)]
pub struct ExMutex<T: ?Sized>(std::sync::Mutex<T>);

/// `std::sync::MutexGuard`, opaque.
#[verifier::external_type_specification]
#[verifier::external_body]
#[verifier::reject_recursive_types(T)]
pub struct ExMutexGuard<'a, T: ?Sized + 'a>(std::sync::MutexGuard<'a, T>);

/// `std::sync::PoisonError`, opaque.
#[verifier::external_type_specification]
#[verifier::external_body]
#[verifier::reject_recursive_types(T)]
pub struct ExPoisonError<T>(std::sync::PoisonError<T>);

/// The guard inside the error that locking a poisoned mutex gives: what
/// `PoisonError::into_inner` returns of it.
pub uninterp spec fn poisoned_guard(
    error: PoisonError<MutexGuard<'static, MemState>>,
) -> MutexGuard<'static, MemState>;

/// Takes the lock of `hold`.
///
/// Calls `Mutex::lock`. Nothing is claimed of it: whether the guard comes by
/// itself or inside the error of a poisoned mutex is up to the other threads, and
/// so is what the mutex holds by then. A thread that has the lock already may
/// wait here without end, or panic.
#[verifier::external_body]
fn lock(hold: &'static Mutex<MemState>) -> (locked: Result<
    MutexGuard<'static, MemState>,
    PoisonError<MutexGuard<'static, MemState>>,
>) {
    hold.lock()
}

/// Whether `locked` is what taking the lock of `hold` gave.
pub closed spec fn lock_gave(
    hold: &'static Mutex<MemState>,
    locked: Result<MutexGuard<'static, MemState>, PoisonError<MutexGuard<'static, MemState>>>,
) -> bool {
    call_ensures(lock, (hold,), locked)
}

/// The guard that taking the lock came to, from a poisoned mutex too.
pub open spec fn recovered(
    locked: Result<MutexGuard<'static, MemState>, PoisonError<MutexGuard<'static, MemState>>>,
) -> MutexGuard<'static, MemState> {
    match locked {
        Ok(guard) => guard,
        Err(error) => poisoned_guard(error),
    }
}

/// The guard inside the error that locking a poisoned mutex gives.
///
/// Calls `PoisonError::into_inner`. Claimed of it: the guard depends on the error
/// alone.
#[verifier::external_body]
fn into_inner(error: PoisonError<MutexGuard<'static, MemState>>) -> (guard: MutexGuard<
    'static,
    MemState,
>)
    ensures
        guard == poisoned_guard(error),
{
    error.into_inner()
}

/// The guard that taking the lock came to, from a poisoned mutex too.
///
/// A mutex is poisoned where a thread panicked with the lock taken. The state is
/// a buffer and a number, which no panic leaves half changed, so it is used as it
/// stands.
pub fn recover(
    locked: Result<MutexGuard<'static, MemState>, PoisonError<MutexGuard<'static, MemState>>>,
) -> (guard: MutexGuard<'static, MemState>)
    ensures
        guard == recovered(locked),
{
    match locked {
        Ok(g) => g,
        Err(error) => into_inner(error),
    }
}

/// Takes the lock on the shared state, whether or not it is poisoned.
pub fn lock_state(hold: &'static Mutex<MemState>) -> (guard: MutexGuard<'static, MemState>)
    ensures
        exists|locked| #[trigger] lock_gave(hold, locked) && guard == recovered(locked),
{
    let locked = lock(hold);
    assert(lock_gave(hold, locked));
    recover(locked)
}

/// A guard comes out of a lock as it is, or out of the error of a poisoned one.
pub proof fn law_guard_is_kept(
    guard: MutexGuard<'static, MemState>,
    error: PoisonError<MutexGuard<'static, MemState>>,
    from_guard: MutexGuard<'static, MemState>,
    from_error: MutexGuard<'static, MemState>,
)
    requires
        call_ensures(recover, (Ok(guard),), from_guard),
        call_ensures(recover, (Err(error),), from_error),
    ensures
        from_guard == guard,
        from_error == poisoned_guard(error),
{
}

/// The guard on the shared state is what taking the lock of that very mutex gave.
proof fn law_guard_is_of_the_lock(
    hold: &'static Mutex<MemState>,
    guard: MutexGuard<'static, MemState>,
)
    requires
        call_ensures(lock_state, (hold,), guard),
    ensures
        call_ensures(lock, (hold,), Ok(guard)) || exists|
            error: PoisonError<MutexGuard<'static, MemState>>,
        | #[trigger]
            call_ensures(lock, (hold,), Err(error)) && guard == poisoned_guard(error),
{
}

} // verus!
