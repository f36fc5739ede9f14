//! The options with which a file is opened.

use vstd::prelude::*;

verus! {

/// The scratch capacity that `direct_io(true)` asks for, in bytes.
pub const DEFAULT_DIRECT_IO_BUFFER_SIZE: usize = 4096;

/// Reads the constant `libc::O_DIRECT`, the open flag that asks a Unix
/// system to bypass its page cache. Its value differs from one architecture
/// to the next; on each it is one bit that is set, so it is not zero.
#[verifier::external_body]
fn o_direct() -> (flag: i32)
    ensures
        flag != 0,
{
    libc::O_DIRECT
}

/// Reads the constant `FILE_FLAG_NO_BUFFERING` of `windows_sys`, the open
/// flag that asks Windows to bypass its cache: bit 29.
#[verifier::external_body]
fn file_flag_no_buffering() -> (flag: u32)
    ensures
        flag == 0x2000_0000,
{
    windows_sys::Win32::Storage::FileSystem::FILE_FLAG_NO_BUFFERING
}

/// How a file is to be opened.
///
/// `direct_io_buffer_size` is the capacity of the scratch buffer that the
/// opened file gets; direct I/O is asked for exactly when it is not zero.
#[derive(Clone, Copy, Debug, PartialEq, Eq, Structural)]
pub struct OpenOptions {
    pub read: bool,
    pub write: bool,
    pub append: bool,
    pub truncate: bool,
    pub create: bool,
    pub create_new: bool,
    pub direct_io_buffer_size: usize,
}

impl Default for OpenOptions {
    fn default() -> (opts: Self)
        ensures
            opts == OpenOptions::blank(),
    {
        OpenOptions {
            read: false,
            write: false,
            append: false,
            truncate: false,
            create: false,
            create_new: false,
            direct_io_buffer_size: 0,
        }
    }
}

impl OpenOptions {
    /// The options with nothing asked for.
    pub open spec fn blank() -> OpenOptions {
        OpenOptions {
            read: false,
            write: false,
            append: false,
            truncate: false,
            create: false,
            create_new: false,
            direct_io_buffer_size: 0,
        }
    }

    /// Whether direct I/O is asked for.
    pub open spec fn is_direct_io(&self) -> bool {
        self.direct_io_buffer_size != 0
    }

    /// Options with every toggle off and direct I/O not asked for.
    pub fn new() -> (opts: Self)
        ensures
            opts == OpenOptions::blank(),
    {
        OpenOptions {
            read: false,
            write: false,
            append: false,
            truncate: false,
            create: false,
            create_new: false,
            direct_io_buffer_size: 0,
        }
    }

    /// Sets whether the file is opened for reading.
    pub fn read(&mut self, read: bool) -> (ret: &mut Self)
        ensures
            *ret == (OpenOptions { read: read, ..*old(self) }),
            *final(self) == *final(ret),
    {
        self.read = read;
        self
    }

    /// Sets whether the file is opened for writing.
    pub fn write(&mut self, write: bool) -> (ret: &mut Self)
        ensures
            *ret == (OpenOptions { write: write, ..*old(self) }),
            *final(self) == *final(ret),
    {
        self.write = write;
        self
    }

    /// Sets whether writes go to the end of the file.
    pub fn append(&mut self, append: bool) -> (ret: &mut Self)
        ensures
            *ret == (OpenOptions { append: append, ..*old(self) }),
            *final(self) == *final(ret),
    {
        self.append = append;
        self
    }

    /// Sets whether an existing file is cut to length zero.
    pub fn truncate(&mut self, truncate: bool) -> (ret: &mut Self)
        ensures
            *ret == (OpenOptions { truncate: truncate, ..*old(self) }),
            *final(self) == *final(ret),
    {
        self.truncate = truncate;
        self
    }

    /// Sets whether a missing file is created.
    pub fn create(&mut self, create: bool) -> (ret: &mut Self)
        ensures
            *ret == (OpenOptions { create: create, ..*old(self) }),
            *final(self) == *final(ret),
    {
        self.create = create;
        self
    }

    /// Sets whether the file must be created anew.
    pub fn create_new(&mut self, create_new: bool) -> (ret: &mut Self)
        ensures
            *ret == (OpenOptions { create_new: create_new, ..*old(self) }),
            *final(self) == *final(ret),
    {
        self.create_new = create_new;
        self
    }

    /// Asks for direct I/O with the default scratch capacity, or takes the
    /// request back.
    pub fn direct_io(&mut self, enable: bool) -> (ret: &mut Self)
        ensures
            *ret == (OpenOptions {
                direct_io_buffer_size: if enable {
                    DEFAULT_DIRECT_IO_BUFFER_SIZE
                } else {
                    0
                },
                ..*old(self)
            }),
            *final(self) == *final(ret),
    {
        self.direct_io_buffer_size = if enable {
            DEFAULT_DIRECT_IO_BUFFER_SIZE
        } else {
            0
        };
        self
    }

    /// Asks for direct I/O with a scratch buffer of `capacity` bytes; with
    /// a capacity of zero, for none.
    pub fn direct_io_capacity(&mut self, capacity: usize) -> (ret: &mut Self)
        ensures
            *ret == (OpenOptions { direct_io_buffer_size: capacity, ..*old(self) }),
            *final(self) == *final(ret),
    {
        self.direct_io_buffer_size = capacity;
        self
    }

    /// The flags to hand to a Unix system beside the toggles: the flag that
    /// bypasses the page cache where direct I/O is asked for, and none where
    /// it is not.
    pub fn unix_custom_flags(&self) -> (flags: i32)
        ensures
            flags != 0 <==> self.is_direct_io(),
    {
        if self.direct_io_buffer_size != 0 {
            o_direct()
        } else {
            0
        }
    }

    /// The flags to hand to Windows beside the toggles: the flag that
    /// bypasses the cache where direct I/O is asked for, and none where it
    /// is not.
    pub fn windows_custom_flags(&self) -> (flags: u32)
        ensures
            flags == if self.is_direct_io() {
                0x2000_0000u32
            } else {
                0u32
            },
    {
        if self.direct_io_buffer_size != 0 {
            file_flag_no_buffering()
        } else {
            0
        }
    }
}

} // verus!
