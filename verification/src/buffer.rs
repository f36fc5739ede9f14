//! Byte buffers that start at a multiple of the alignment unit.

use vstd::prelude::*;
use crate::align::{is_aligned, is_multiple_of_align, padding_of, ALIGN};

verus! {

/// Calls `<[u8]>::as_ptr` and gives the address of the slice's first byte as
/// a number. Nothing is claimed of it: where a buffer lies is for the
/// allocator to say.
#[verifier::external_body]
pub(crate) fn slice_address(buf: &[u8]) -> (addr: usize) {
    buf.as_ptr() as usize
}

/// `n` zero bytes.
pub open spec fn zeros(n: nat) -> Seq<u8> {
    Seq::new(n, |i: int| 0u8)
}

/// A byte buffer of fixed length whose first byte lies at a multiple of the
/// alignment unit.
///
/// The bytes live in a larger allocation; the buffer is the part of it that
/// starts at the first aligned address. That address is kept, so that it
/// can be handed on together with the bytes.
pub struct AlignedBuf {
    storage: Vec<u8>,
    start: usize,
    addr: usize,
    len: usize,
}

/// What an aligned buffer is to the eye: the address of its first byte, and
/// its bytes.
pub struct AlignedView {
    pub addr: usize,
    pub bytes: Seq<u8>,
}

impl View for AlignedBuf {
    type V = AlignedView;

    closed spec fn view(&self) -> AlignedView {
        AlignedView {
            addr: self.addr,
            bytes: self.storage@.subrange(self.start as int, self.start + self.len),
        }
    }
}

impl AlignedBuf {
    /// The buffer lies within its allocation, and its first byte at a
    /// multiple of the alignment unit.
    pub closed spec fn wf(&self) -> bool {
        &&& self.start + self.len <= self.storage@.len()
        &&& is_aligned(self.addr as int)
    }

    /// The address of the first byte, as it was when the buffer was made.
    pub open spec fn address(&self) -> usize {
        self@.addr
    }

    /// The number of bytes the buffer was made with.
    pub closed spec fn spec_len(&self) -> nat {
        self.len as nat
    }

    /// What it is to be well formed: the address of a well-formed buffer is
    /// a multiple of the alignment unit, and the buffer has as many bytes as
    /// it was made with.
    pub proof fn lemma_wf(&self)
        requires
            self.wf(),
        ensures
            is_aligned(self.address() as int),
            self@.bytes.len() == self.spec_len(),
    {
    }

    /// The number of bytes in the buffer.
    pub fn len(&self) -> (n: usize)
        ensures
            n == self.spec_len(),
    {
        self.len
    }

    /// The address of the first byte.
    pub fn addr(&self) -> (addr: usize)
        ensures
            addr == self.address(),
    {
        self.addr
    }

    /// Tells whether the buffer is well formed. Every buffer that this module
    /// made is; one that came back from elsewhere can be asked.
    pub fn is_well_formed(&self) -> (b: bool)
        ensures
            b == self.wf(),
    {
        let room: usize = self.storage.len();
        if self.start > room || self.len > room - self.start {
            return false;
        }
        is_multiple_of_align(self.addr)
    }

    /// The bytes of the buffer.
    pub fn as_slice(&self) -> (region: &[u8])
        requires
            self.wf(),
        ensures
            region@ == self@.bytes,
    {
        let (_, tail) = self.storage.as_slice().split_at(self.start);
        let (region, _) = tail.split_at(self.len);
        region
    }

    /// The bytes of the buffer, to be written. The buffer keeps its address
    /// and its length whatever is written; what it holds afterwards is what
    /// the slice holds once its borrow ends (a slice cannot change its
    /// length, which the two clauses on the outcome take as their premise).
    pub fn as_mut_slice(&mut self) -> (region: &mut [u8])
        requires
            old(self).wf(),
        ensures
            region@ == old(self)@.bytes,
            final(region)@.len() == region@.len() ==> final(self)@.bytes == final(region)@,
            final(region)@.len() == region@.len() ==> final(self).wf(),
            final(self).address() == old(self).address(),
            final(self).spec_len() == old(self).spec_len(),
    {
        let (_, tail) = self.storage.as_mut_slice().split_at_mut(self.start);
        let (region, _) = tail.split_at_mut(self.len);
        region
    }
}

/// Allocates a buffer of `size` zero bytes whose first byte lies at a
/// multiple of the alignment unit.
pub fn alloc_aligend_buffer(size: usize) -> (buf: AlignedBuf)
    requires
        size + ALIGN <= isize::MAX,
    ensures
        buf.wf(),
        is_aligned(buf.address() as int),
        buf.spec_len() == size,
        buf@.bytes == zeros(size as nat),
{
    let storage: Vec<u8> = vec![0u8; size + (ALIGN - 1)];
    let base = slice_address(storage.as_slice());
    let start = padding_of(base);
    // An allocation does not reach past the last address; if this one did,
    // the sum would wrap and still be a multiple of the unit.
    let addr = base.wrapping_add(start);
    AlignedBuf { storage, start, addr, len: size }
}

} // verus!
