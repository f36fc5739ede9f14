//! The file handle.

use vstd::prelude::*;
use crate::align::{
    is_aligned, lemma_round_up, lemma_stageable, next_multiple_of_align, round_up, stageable,
};
use crate::buffer::{alloc_aligend_buffer, slice_address, zeros, AlignedBuf};
use crate::error::Error;
use crate::ext::{FileExt, PositionedExt, StreamExt};
use crate::route::{read_route, spec_read_route, write_route, Route};
use crate::scalar::{
    native_read, native_write, read_rel, read_through, staged_read, write_rel, write_through,
};
use crate::scratch::{guarded_buffer, lock_scratch, new_scratch};

verus! {

/// A file that takes any buffer.
///
/// It owns a raw handle `H`, through which every native call is made, and a
/// scratch buffer of fixed capacity that starts at a multiple of the
/// alignment unit. An operation holds the scratch buffer for itself from
/// before its native call until after it, so that two operations on one
/// file never share it.
pub struct File<H> {
    inner: H,
    direct_io_buffer: parking_lot::RwLock<AlignedBuf>,
    direct_io_buffer_size: usize,
}

/// What a read into a buffer at `addr` does on a handle `h` with a scratch
/// buffer of `capacity` bytes.
///
/// Where the address is aligned, it is one native read into the buffer
/// itself, with the result of that read. Else it is a read through a
/// staging area that lies at a multiple of the alignment unit and is as
/// long as the buffer's length rounded up; for a temporary buffer it starts
/// out as zeros.
pub open spec fn read_outcome<H: StreamExt + PositionedExt>(
    h: &H,
    capacity: usize,
    addr: usize,
    before: Seq<u8>,
    offset: Option<u64>,
    after: Seq<u8>,
    res: Result<usize, Error>,
) -> bool {
    match spec_read_route(addr as int, before.len() as int, capacity as int) {
        Route::Direct => read_rel(h, addr, before, offset, after, res),
        Route::Temporary => exists|stage_addr: usize, stage_after: Seq<u8>|
            is_aligned(stage_addr as int) && stage_after.len() == round_up(before.len() as int)
                && #[trigger] staged_read(
                h,
                before,
                stage_addr,
                zeros(round_up(before.len() as int) as nat),
                offset,
                stage_after,
                after,
                res,
            ),
        Route::Scratch => exists|stage_addr: usize, stage_before: Seq<u8>, stage_after: Seq<u8>|
            is_aligned(stage_addr as int) && stage_before.len() == round_up(before.len() as int)
                && stage_after.len() == round_up(before.len() as int) && #[trigger] staged_read(
                h,
                before,
                stage_addr,
                stage_before,
                offset,
                stage_after,
                after,
                res,
            ),
    }
}

/// What a write of `data`, which lies at `addr`, does on a handle `h`: where
/// the length is no multiple of the alignment unit it fails with
/// `InvalidInput`; else it is one native write of these very bytes, with the
/// result of that write, from the caller's memory where that lies at a
/// multiple of the alignment unit, and else from a copy that does.
pub open spec fn write_outcome<H: StreamExt + PositionedExt>(
    h: &H,
    addr: usize,
    data: Seq<u8>,
    offset: Option<u64>,
    res: Result<usize, Error>,
) -> bool {
    if !is_aligned(data.len() as int) {
        res == Err::<usize, Error>(Error::InvalidInput)
    } else if is_aligned(addr as int) {
        write_rel(h, addr, data, offset, res)
    } else {
        exists|stage_addr: usize|
            is_aligned(stage_addr as int) && #[trigger] write_rel(
                h,
                stage_addr,
                data,
                offset,
                res,
            )
    }
}

impl<H> File<H> {
    /// The scratch buffer can be allocated.
    #[verifier::type_invariant]
    spec fn inv(self) -> bool {
        self.direct_io_buffer_size + crate::align::ALIGN <= isize::MAX
    }

    /// The raw handle.
    pub closed spec fn handle(&self) -> &H {
        &self.inner
    }

    /// The capacity of the scratch buffer.
    pub closed spec fn capacity(&self) -> usize {
        self.direct_io_buffer_size
    }

    /// Makes a file of a raw handle, with a scratch buffer of `capacity`
    /// bytes.
    pub fn new(inner: H, capacity: usize) -> (file: Self)
        requires
            capacity + crate::align::ALIGN <= isize::MAX,
        ensures
            *file.handle() == inner,
            file.capacity() == capacity,
    {
        File {
            inner,
            direct_io_buffer: new_scratch(alloc_aligend_buffer(capacity)),
            direct_io_buffer_size: capacity,
        }
    }

    /// The raw handle, for the calls that need no buffer.
    pub fn as_inner(&self) -> (inner: &H)
        ensures
            inner == self.handle(),
    {
        &self.inner
    }

    /// Gives the raw handle back and frees the scratch buffer.
    pub fn into_inner(self) -> (inner: H)
        ensures
            inner == *self.handle(),
    {
        self.inner
    }

    /// The capacity of the scratch buffer, in bytes.
    pub fn direct_io_buffer_size(&self) -> (capacity: usize)
        ensures
            capacity == self.capacity(),
    {
        self.direct_io_buffer_size
    }

    /// Whether reads into several buffers are made in one native call: they
    /// always are.
    pub fn is_read_vectored(&self) -> (yes: bool)
        ensures
            yes,
    {
        true
    }

    /// Whether writes of several buffers are made in one native call: they
    /// always are.
    pub fn is_write_vectored(&self) -> (yes: bool)
        ensures
            yes,
    {
        true
    }

    /// Makes a second file of a clone of the raw handle. It gets a scratch
    /// buffer of its own, of the same capacity, so that the two files never
    /// wait for each other. Where the handle could not be cloned, the
    /// failure is passed on.
    pub fn try_clone(&self, cloned: Result<H, Error>) -> (res: Result<Self, Error>)
        ensures
            match cloned {
                Ok(inner) => res is Ok && *res->Ok_0.handle() == inner && res->Ok_0.capacity()
                    == self.capacity(),
                Err(e) => res is Err && res->Err_0 == e,
            },
    {
        proof {
            use_type_invariant(self);
        }
        match cloned {
            Ok(inner) => Ok(File::new(inner, self.direct_io_buffer_size)),
            Err(e) => Err(e),
        }
    }
}

impl<H: StreamExt + PositionedExt> File<H> {
    /// Reads into `buf`, whose first byte lies at `addr`, at the stream
    /// position or at the offset given.
    pub fn read_with_address(
        &self,
        buf: &mut [u8],
        addr: usize,
        offset: Option<u64>,
    ) -> (res: Result<usize, Error>)
        requires
            stageable(old(buf)@.len() as int),
        ensures
            final(buf)@.len() == old(buf)@.len(),
            res matches Ok(n) ==> n <= old(buf)@.len(),
            read_outcome(
                self.handle(),
                self.capacity(),
                addr,
                old(buf)@,
                offset,
                final(buf)@,
                res,
            ),
    {
        let len: usize = buf.len();
        proof {
            lemma_round_up(len as int);
            lemma_stageable(len as int);
        }
        match read_route(addr, len, self.direct_io_buffer_size) {
            Route::Direct => native_read(&self.inner, buf, addr, offset),
            Route::Temporary => self.read_temporary(buf, offset),
            Route::Scratch => {
                let aligned_len: usize = next_multiple_of_align(len);
                let mut guard = lock_scratch(&self.direct_io_buffer);
                let scratch = guarded_buffer(&mut guard);
                if scratch.is_well_formed() && aligned_len <= scratch.len() {
                    let ghost stage_addr = scratch.address();
                    let ghost stage_before = scratch@.bytes.subrange(0, aligned_len as int);
                    proof {
                        scratch.lemma_wf();
                    }
                    let res = read_through(&self.inner, buf, scratch, aligned_len, offset);
                    proof {
                        scratch.lemma_wf();
                        assert(staged_read(
                            self.handle(),
                            old(buf)@,
                            stage_addr,
                            stage_before,
                            offset,
                            scratch@.bytes.subrange(0, aligned_len as int),
                            buf@,
                            res,
                        ));
                    }
                    res
                } else {
                    self.read_temporary(buf, offset)
                }
            },
        }
    }

    /// Reads through a temporary buffer as long as the length of `buf`
    /// rounded up.
    fn read_temporary(&self, buf: &mut [u8], offset: Option<u64>) -> (res: Result<usize, Error>)
        requires
            stageable(old(buf)@.len() as int),
        ensures
            final(buf)@.len() == old(buf)@.len(),
            res matches Ok(n) ==> n <= old(buf)@.len(),
            exists|stage_addr: usize, stage_after: Seq<u8>|
                is_aligned(stage_addr as int) && stage_after.len() == round_up(
                    old(buf)@.len() as int,
                ) && #[trigger] staged_read(
                    self.handle(),
                    old(buf)@,
                    stage_addr,
                    zeros(round_up(old(buf)@.len() as int) as nat),
                    offset,
                    stage_after,
                    final(buf)@,
                    res,
                ),
    {
        let len: usize = buf.len();
        proof {
            lemma_round_up(len as int);
            lemma_stageable(len as int);
        }
        let aligned_len: usize = next_multiple_of_align(len);
        let mut stage = alloc_aligend_buffer(aligned_len);
        proof {
            stage.lemma_wf();
            assert(stage@.bytes.subrange(0, aligned_len as int) =~= zeros(aligned_len as nat));
        }
        let ghost stage_addr = stage.address();
        let res = read_through(&self.inner, buf, &mut stage, aligned_len, offset);
        proof {
            stage.lemma_wf();
            let stage_after = stage@.bytes.subrange(0, aligned_len as int);
            assert(staged_read(
                self.handle(),
                old(buf)@,
                stage_addr,
                zeros(round_up(old(buf)@.len() as int) as nat),
                offset,
                stage_after,
                buf@,
                res,
            ));
        }
        res
    }

    /// Reads into `buf`, at the stream position or at the offset given.
    /// Where `buf` lies decides which memory the native call is given; what
    /// is read and returned is the same wherever it lies.
    pub fn read_helper(&self, buf: &mut [u8], offset: Option<u64>) -> (res: Result<usize, Error>)
        requires
            stageable(old(buf)@.len() as int),
        ensures
            final(buf)@.len() == old(buf)@.len(),
            res matches Ok(n) ==> n <= old(buf)@.len(),
            exists|addr: usize| #[trigger]
                read_outcome(
                    self.handle(),
                    self.capacity(),
                    addr,
                    old(buf)@,
                    offset,
                    final(buf)@,
                    res,
                ),
    {
        let addr = slice_address(buf);
        self.read_with_address(buf, addr, offset)
    }

    /// Writes from `buf`, whose first byte lies at `addr`, at the stream
    /// position or at the offset given.
    pub fn write_with_address(
        &self,
        buf: &[u8],
        addr: usize,
        offset: Option<u64>,
    ) -> (res: Result<usize, Error>)
        requires
            stageable(buf@.len() as int),
        ensures
            res matches Ok(n) ==> n <= buf@.len(),
            write_outcome(self.handle(), addr, buf@, offset, res),
    {
        let len: usize = buf.len();
        match write_route(addr, len, self.direct_io_buffer_size) {
            Err(e) => Err(e),
            Ok(Route::Direct) => native_write(&self.inner, buf, addr, offset),
            Ok(Route::Temporary) => self.write_temporary(buf, offset),
            Ok(Route::Scratch) => {
                let mut guard = lock_scratch(&self.direct_io_buffer);
                let scratch = guarded_buffer(&mut guard);
                if scratch.is_well_formed() && len <= scratch.len() {
                    let ghost stage_addr = scratch.address();
                    let res = write_through(&self.inner, buf, scratch, offset);
                    proof {
                        assert(write_rel(self.handle(), stage_addr, buf@, offset, res));
                    }
                    res
                } else {
                    self.write_temporary(buf, offset)
                }
            },
        }
    }

    /// Writes through a temporary buffer exactly as long as `buf`.
    fn write_temporary(&self, buf: &[u8], offset: Option<u64>) -> (res: Result<usize, Error>)
        requires
            stageable(buf@.len() as int),
        ensures
            res matches Ok(n) ==> n <= buf@.len(),
            exists|stage_addr: usize|
                is_aligned(stage_addr as int) && #[trigger] write_rel(
                    self.handle(),
                    stage_addr,
                    buf@,
                    offset,
                    res,
                ),
    {
        let mut stage = alloc_aligend_buffer(buf.len());
        let ghost stage_addr = stage.address();
        let res = write_through(&self.inner, buf, &mut stage, offset);
        proof {
            assert(write_rel(self.handle(), stage_addr, buf@, offset, res));
        }
        res
    }

    /// Writes from `buf`, at the stream position or at the offset given. A
    /// buffer whose length is no multiple of the alignment unit is refused
    /// before anything is handed to the operating system.
    pub fn write_helper(&self, buf: &[u8], offset: Option<u64>) -> (res: Result<usize, Error>)
        requires
            stageable(buf@.len() as int),
        ensures
            res matches Ok(n) ==> n <= buf@.len(),
            exists|addr: usize| #[trigger] write_outcome(self.handle(), addr, buf@, offset, res),
    {
        let addr = slice_address(buf);
        self.write_with_address(buf, addr, offset)
    }
}

impl<H: StreamExt + PositionedExt> StreamExt for File<H> {
    /// A read at the stream position does what `read_outcome` says.
    open spec fn read_spec(
        &self,
        addr: usize,
        before: Seq<u8>,
        after: Seq<u8>,
        res: Result<usize, Error>,
    ) -> bool {
        read_outcome(self.handle(), self.capacity(), addr, before, None, after, res)
    }

    /// A write at the stream position does what `write_outcome` says.
    open spec fn write_spec(&self, addr: usize, data: Seq<u8>, res: Result<usize, Error>) -> bool {
        write_outcome(self.handle(), addr, data, None, res)
    }

    fn read(&self, buf: &mut [u8], addr: usize) -> (res: Result<usize, Error>) {
        self.read_with_address(buf, addr, None)
    }

    fn write(&self, buf: &[u8], addr: usize) -> (res: Result<usize, Error>) {
        self.write_with_address(buf, addr, None)
    }
}

impl<H: StreamExt + PositionedExt> PositionedExt for File<H> {
    /// A read at an offset does what `read_outcome` says.
    open spec fn read_at_spec(
        &self,
        addr: usize,
        before: Seq<u8>,
        offset: u64,
        after: Seq<u8>,
        res: Result<usize, Error>,
    ) -> bool {
        read_outcome(self.handle(), self.capacity(), addr, before, Some(offset), after, res)
    }

    /// A write at an offset does what `write_outcome` says.
    open spec fn write_at_spec(
        &self,
        addr: usize,
        data: Seq<u8>,
        offset: u64,
        res: Result<usize, Error>,
    ) -> bool {
        write_outcome(self.handle(), addr, data, Some(offset), res)
    }

    fn read_at(&self, buf: &mut [u8], addr: usize, offset: u64) -> (res: Result<usize, Error>) {
        self.read_with_address(buf, addr, Some(offset))
    }

    fn write_at(&self, buf: &[u8], addr: usize, offset: u64) -> (res: Result<usize, Error>) {
        self.write_with_address(buf, addr, Some(offset))
    }
}

impl<H: StreamExt + PositionedExt> FileExt for File<H> {
    open spec fn positioned_read(
        &self,
        addr: usize,
        before: Seq<u8>,
        offset: u64,
        after: Seq<u8>,
        res: Result<usize, Error>,
    ) -> bool {
        self.read_at_spec(addr, before, offset, after, res)
    }

    open spec fn positioned_write(
        &self,
        addr: usize,
        data: Seq<u8>,
        offset: u64,
        res: Result<usize, Error>,
    ) -> bool {
        self.write_at_spec(addr, data, offset, res)
    }

    fn read_at(&self, buf: &mut [u8], addr: usize, offset: u64) -> (res: Result<usize, Error>) {
        PositionedExt::read_at(self, buf, addr, offset)
    }

    fn write_at(&self, buf: &[u8], addr: usize, offset: u64) -> (res: Result<usize, Error>) {
        PositionedExt::write_at(self, buf, addr, offset)
    }

    fn write_all_at(&self, buf: &[u8], addr: usize, offset: u64) -> (res: Result<(), Error>) {
        let res = PositionedExt::write_all_at(self, buf, addr, offset);
        proof {
            let here = |a: usize, d: Seq<u8>, o: u64, r: Result<usize, Error>|
                self.positioned_write(a, d, o, r);
            let there = |a: usize, d: Seq<u8>, o: u64, r: Result<usize, Error>|
                self.write_at_spec(a, d, o, r);
            assert(here =~= there);
        }
        res
    }
}

/// Whether a handle reads back what was written, as far as its memory lies
/// at multiples of the alignment unit: whenever a write at an offset wrote
/// all of its bytes and a read at that offset read `n` bytes, both on such
/// memory, the bytes read are the first `n` of those written.
pub open spec fn reads_back_aligned<T: PositionedExt>(t: &T) -> bool {
    forall|
        from: usize,
        data: Seq<u8>,
        offset: u64,
        to: usize,
        before: Seq<u8>,
        after: Seq<u8>,
        n: usize,
    |
        is_aligned(from as int) && is_aligned(to as int) && data.len() <= usize::MAX
            && #[trigger] t.write_at_spec(from, data, offset, Ok(data.len() as usize))
            && #[trigger] t.read_at_spec(to, before, offset, after, Ok(n)) ==> forall|j: int|
            0 <= j < n && j < data.len() && j < after.len() ==> after[j] == data[j]
}

/// Whether a handle reads back what was written, wherever its memory lies.
pub open spec fn reads_back<T: PositionedExt>(t: &T) -> bool {
    forall|
        from: usize,
        data: Seq<u8>,
        offset: u64,
        to: usize,
        before: Seq<u8>,
        after: Seq<u8>,
        n: usize,
    |
        data.len() <= usize::MAX && #[trigger] t.write_at_spec(
            from,
            data,
            offset,
            Ok(data.len() as usize),
        ) && #[trigger] t.read_at_spec(to, before, offset, after, Ok(n)) ==> forall|j: int|
            0 <= j < n && j < data.len() && j < after.len() ==> after[j] == data[j]
}

/// Round trip: a file reads back what it wrote, wherever the buffer that was
/// written from and the buffer that is read into lie, if the handle under it
/// reads back what was written on memory that lies at multiples of the
/// alignment unit.
pub proof fn lemma_round_trip<H: StreamExt + PositionedExt>(file: &File<H>)
    requires
        reads_back_aligned(file.handle()),
    ensures
        reads_back(file),
{
}

/// Round trip, in full: where a write of `data` at an offset wrote all of it
/// and a read at that offset into a buffer of the same length read as many
/// bytes, the buffer holds `data`, wherever the two buffers lie, if the
/// handle under the file reads back what was written on memory that lies at
/// multiples of the alignment unit.
pub proof fn lemma_round_trip_exact<H: StreamExt + PositionedExt>(
    file: &File<H>,
    from: usize,
    data: Seq<u8>,
    offset: u64,
    to: usize,
    before: Seq<u8>,
    after: Seq<u8>,
)
    requires
        reads_back_aligned(file.handle()),
        data.len() <= usize::MAX,
        before.len() == data.len(),
        after.len() == data.len(),
        file.write_at_spec(from, data, offset, Ok(data.len() as usize)),
        file.read_at_spec(to, before, offset, after, Ok(data.len() as usize)),
    ensures
        after == data,
{
    lemma_round_trip(file);
    assert(after =~= data);
}

} // verus!
