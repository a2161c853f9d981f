//! The locks of the `parking_lot` crate. Other threads change what a lock guards whenever nobody
//! holds it, so nothing is ever known of the value that a holder finds; what the holder does with
//! that value is given as a function, and known from that function's contract.

use parking_lot::{Mutex, RawMutex, RawRwLock, RwLock};
use vstd::prelude::*;

verus! {

/// The state of a mutex, apart from the value it guards.
#[verifier::external_type_specification]
#[verifier::external_body]
pub struct ExRawMutex(RawMutex);

/// The state of a reader-writer lock, apart from the value it guards.
#[verifier::external_type_specification]
#[verifier::external_body]
pub struct ExRawRwLock(RawRwLock);

/// A value that one holder at a time may use.
#[verifier::external_type_specification]
#[verifier::external_body]
#[verifier::reject_recursive_types(R)]
#[verifier::reject_recursive_types(T)]
pub struct ExMutex<R, T: ?Sized>(parking_lot::lock_api::Mutex<R, T>);

/// A value that many holders may read, or one may change.
#[verifier::external_type_specification]
#[verifier::external_body]
#[verifier::reject_recursive_types(R)]
#[verifier::reject_recursive_types(T)]
pub struct ExRwLock<R, T: ?Sized>(parking_lot::lock_api::RwLock<R, T>);

/// `RwLock::new` guards a value by a lock that nobody holds.
#[verifier::external_body]
fn new_rw_lock<T>(value: T) -> RwLock<T> {
    RwLock::new(value)
}

/// Whether a lock was made around a value: that is what `RwLock::new` answers for it.
pub closed spec fn was_made_around<T>(lock: RwLock<T>, value: T) -> bool {
    call_ensures(new_rw_lock::<T>, (value,), lock)
}

/// Guards a value by a lock that nobody holds.
pub fn make_lock<T>(value: T) -> (lock: RwLock<T>)
    ensures
        was_made_around(lock, value),
{
    new_rw_lock(value)
}

/// `RwLock::read` waits for shared access, hands the guarded value and `argument` to `action`, and
/// gives the access back. The result is what `action` makes of the value that it finds.
#[verifier::external_body]
pub(crate) fn with_read<T, A, R, F: FnOnce(&T, A) -> R>(
    lock: &RwLock<T>,
    argument: A,
    action: F,
) -> (result: R)
    requires
        forall|found: &T| action.requires((found, argument)),
    ensures
        exists|found: &T| action.ensures((found, argument), result),
{
    action(&lock.read(), argument)
}

/// `RwLock::write` waits for exclusive access, hands the guarded value and `argument` to `action`,
/// and gives the access back. The result is what `action` makes of the value that it finds.
#[verifier::external_body]
pub(crate) fn with_write<T, A, R, F: FnOnce(&mut T, A) -> R>(
    lock: &RwLock<T>,
    argument: A,
    action: F,
) -> (result: R)
    requires
        forall|found: &mut T| action.requires((found, argument)),
    ensures
        exists|found: &mut T| action.ensures((found, argument), result),
{
    action(&mut lock.write(), argument)
}

/// `Mutex::lock` waits for exclusive access, hands the guarded value and `argument` to `action`,
/// and gives the access back. The result is what `action` makes of the value that it finds.
#[verifier::external_body]
pub(crate) fn with_lock<T, A, R, F: FnOnce(&mut T, A) -> R>(
    lock: &Mutex<T>,
    argument: A,
    action: F,
) -> (result: R)
    requires
        forall|found: &mut T| action.requires((found, argument)),
    ensures
        exists|found: &mut T| action.ensures((found, argument), result),
{
    action(&mut lock.lock(), argument)
}

/// What [`with_read`] answers is what its action makes of some value.
pub(crate) proof fn reads_run_the_action<T, A, R, F: FnOnce(&T, A) -> R>(lock: &RwLock<T>, argument: A, action: F, result: R)
    requires
        call_ensures(with_read::<T, A, R, F>, (lock, argument, action), result),
    ensures
        exists|found: &T| action.ensures((found, argument), result),
{
}

/// What [`with_write`] answers is what its action makes of some value.
pub(crate) proof fn writes_run_the_action<T, A, R, F: FnOnce(&mut T, A) -> R>(lock: &RwLock<T>, argument: A, action: F, result: R)
    requires
        call_ensures(with_write::<T, A, R, F>, (lock, argument, action), result),
    ensures
        exists|found: &mut T| action.ensures((found, argument), result),
{
}

/// What [`with_lock`] answers is what its action makes of some value.
pub(crate) proof fn locks_run_the_action<T, A, R, F: FnOnce(&mut T, A) -> R>(lock: &Mutex<T>, argument: A, action: F, result: R)
    requires
        call_ensures(with_lock::<T, A, R, F>, (lock, argument, action), result),
    ensures
        exists|found: &mut T| action.ensures((found, argument), result),
{
}

/// A lock that was made around a value is one that was made for it.
proof fn locks_are_made_around_a_value<T>(lock: RwLock<T>, value: T)
    requires
        was_made_around(lock, value),
    ensures
        call_ensures(new_rw_lock::<T>, (value,), lock),
{
}

} // verus!
