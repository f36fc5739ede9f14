//! The ways in which an operation on a file can fail.

use vstd::prelude::*;

verus! {

/// Why an operation did not succeed.
#[derive(Debug, Clone, Copy, PartialEq, Eq, Structural)]
pub enum Error {
    /// A buffer to be written whose length is no multiple of the alignment
    /// unit. Nothing was handed to the operating system.
    InvalidInput,
    /// A write of a non-empty buffer that wrote nothing, met while a whole
    /// buffer was to be written.
    WriteZero,
    /// The operating system broke the call off before it did anything.
    Interrupted,
    /// The operating system refused the call, with this error code.
    Os(i32),
    /// Any other failure of the native call.
    Other,
}

impl Error {
    /// Whether the call was broken off and may be tried again.
    pub open spec fn is_interrupted(&self) -> bool {
        *self == Error::Interrupted
    }

    /// Tells whether the call was broken off and may be tried again.
    pub fn interrupted(&self) -> (b: bool)
        ensures
            b == self.is_interrupted(),
    {
        match self {
            Error::Interrupted => true,
            _ => false,
        }
    }
}

} // verus!
