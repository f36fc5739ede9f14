//! The lock that guards a file's scratch buffer.

use vstd::prelude::*;
use crate::buffer::AlignedBuf;

verus! {

/// `lock_api::RwLock`, the lock behind `parking_lot::RwLock`. What it holds
/// cannot be seen without taking it.
#[verifier::external_type_specification]
#[verifier::external_body]
#[verifier::reject_recursive_types(R)]
#[verifier::reject_recursive_types(T)]
pub struct ExRwLock<R, T: ?Sized>(parking_lot::lock_api::RwLock<R, T>);

/// `parking_lot::RawRwLock`, the state of the lock itself.
#[verifier::external_type_specification]
#[verifier::external_body]
pub struct ExRawRwLock(parking_lot::RawRwLock);

/// Exclusive access to the scratch buffer of a file: a
/// `lock_api::RwLockWriteGuard`, which gives the lock back when it is
/// dropped. The guard's own type is bounded by a trait of `lock_api`, so it
/// is kept in here, out of sight.
#[verifier::external_body]
pub struct ScratchGuard<'a> {
    guard: parking_lot::RwLockWriteGuard<'a, AlignedBuf>,
}

/// Calls `RwLock::new`: a lock, not taken, that holds `buf`.
#[verifier::external_body]
pub(crate) fn new_scratch(buf: AlignedBuf) -> (lock: parking_lot::RwLock<AlignedBuf>) {
    parking_lot::RwLock::new(buf)
}

/// Calls `RwLock::write`: waits until nobody else holds the lock, then
/// takes it for this caller alone.
#[verifier::external_body]
pub(crate) fn lock_scratch<'a>(lock: &'a parking_lot::RwLock<AlignedBuf>) -> (guard: ScratchGuard<
    'a,
>) {
    ScratchGuard { guard: lock.write() }
}

/// Calls `RwLockWriteGuard::deref_mut`: the buffer that the lock holds.
/// Nothing is claimed of what is in it.
#[verifier::external_body]
pub(crate) fn guarded_buffer<'a, 'b>(
    guard: &'b mut ScratchGuard<'a>,
) -> (buf: &'b mut AlignedBuf) {
    &mut *guard.guard
}

} // verus!
