//! Files that can be read and written with any buffer, whether or not the
//! handle underneath was opened for direct I/O.
//!
//! Direct I/O bypasses the page cache and asks in return that every buffer
//! handed to the operating system starts at a multiple of the sector size,
//! and that what is written has such a length. [`File`] hides that demand:
//! a buffer that meets it goes to the system as it is, any other is staged
//! through an aligned region.
//!
//! [`File`] is generic over the raw handle that makes the native calls, and
//! says of every operation which native call it makes, on which bytes, on
//! memory at which address, and what it does with the result:
//!
//! - [`align`] and [`buffer`]: the alignment unit, and buffers that start
//!   at a multiple of it;
//! - [`ext`]: what a handle can do, and what it means to write a whole
//!   buffer;
//! - [`route`], [`scalar`] and [`file`]: reads and writes of one buffer;
//! - [`vectored`]: reads and writes of several buffers in one call;
//! - [`open_options`] and [`overlapped`]: the flags a file is opened with,
//!   and the numbers a scatter or gather request is described by.

pub mod align;
pub mod buffer;
pub mod error;
pub mod ext;
pub mod file;
pub mod open_options;
pub mod overlapped;
pub mod route;
pub mod scalar;
mod scratch;
pub mod vectored;

pub use align::ALIGN;
pub use buffer::{alloc_aligend_buffer, AlignedBuf};
pub use error::Error;
pub use ext::{FileExt, PositionedExt, StreamExt, VectoredExt};
pub use file::File;
pub use open_options::OpenOptions;
