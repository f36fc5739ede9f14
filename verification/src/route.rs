//! Which memory a request is served from.

use vstd::prelude::*;
use crate::align::{is_aligned, is_multiple_of_align, next_multiple_of_align, round_up, stageable};
use crate::error::Error;

verus! {

/// The memory that the native call is given.
#[derive(Debug, Clone, Copy, PartialEq, Eq, Structural)]
pub enum Route {
    /// The caller's own buffer: nothing is copied.
    Direct,
    /// The scratch buffer of the file, held for this call alone.
    Scratch,
    /// An aligned buffer made for this call and freed after it.
    Temporary,
}

/// The route of a read into a buffer of `len` bytes at `addr`, on a file
/// whose scratch buffer holds `capacity` bytes: the buffer itself where its
/// address is aligned, whatever its length; else the scratch buffer, if
/// there is one and the length rounded up fits into it; else a temporary
/// buffer.
pub open spec fn spec_read_route(addr: int, len: int, capacity: int) -> Route {
    if is_aligned(addr) {
        Route::Direct
    } else if capacity == 0 || round_up(len) > capacity {
        Route::Temporary
    } else {
        Route::Scratch
    }
}

/// The route of a write from a buffer of `len` bytes at `addr`: none where
/// the length is no multiple of the alignment unit; else the buffer itself
/// where its address is aligned; else the scratch buffer, if the length fits
/// into it; else a temporary buffer.
pub open spec fn spec_write_route(addr: int, len: int, capacity: int) -> Result<Route, Error> {
    if !is_aligned(len) {
        Err(Error::InvalidInput)
    } else if is_aligned(addr) {
        Ok(Route::Direct)
    } else if len > capacity {
        Ok(Route::Temporary)
    } else {
        Ok(Route::Scratch)
    }
}

/// Chooses the route of a read.
pub fn read_route(addr: usize, len: usize, capacity: usize) -> (route: Route)
    requires
        stageable(len as int),
    ensures
        route == spec_read_route(addr as int, len as int, capacity as int),
{
    if is_multiple_of_align(addr) {
        Route::Direct
    } else if capacity == 0 || next_multiple_of_align(len) > capacity {
        Route::Temporary
    } else {
        Route::Scratch
    }
}

/// Chooses the route of a write, or refuses the buffer for its length.
pub fn write_route(addr: usize, len: usize, capacity: usize) -> (route: Result<Route, Error>)
    ensures
        route == spec_write_route(addr as int, len as int, capacity as int),
{
    if !is_multiple_of_align(len) {
        Err(Error::InvalidInput)
    } else if is_multiple_of_align(addr) {
        Ok(Route::Direct)
    } else if len > capacity {
        Ok(Route::Temporary)
    } else {
        Ok(Route::Scratch)
    }
}

} // verus!
