//! Reads and writes of one buffer, through memory that the operating system
//! accepts.

use vstd::prelude::*;
use crate::align::{is_aligned, stageable};
use crate::buffer::AlignedBuf;
use crate::error::Error;
use crate::ext::{PositionedExt, StreamExt};

verus! {

/// What one native read may do, into a buffer at `addr`, at the stream
/// position (no offset) or at an offset.
pub open spec fn read_rel<H: StreamExt + PositionedExt>(
    h: &H,
    addr: usize,
    before: Seq<u8>,
    offset: Option<u64>,
    after: Seq<u8>,
    res: Result<usize, Error>,
) -> bool {
    match offset {
        Some(o) => h.read_at_spec(addr, before, o, after, res),
        None => h.read_spec(addr, before, after, res),
    }
}

/// What one native write may return, from a buffer at `addr`, at the stream
/// position (no offset) or at an offset.
pub open spec fn write_rel<H: StreamExt + PositionedExt>(
    h: &H,
    addr: usize,
    data: Seq<u8>,
    offset: Option<u64>,
    res: Result<usize, Error>,
) -> bool {
    match offset {
        Some(o) => h.write_at_spec(addr, data, o, res),
        None => h.write_spec(addr, data, res),
    }
}

/// The result of a staged read: the native count, cut down to what the
/// caller's buffer holds; a failure as it is.
pub open spec fn clamp(native: Result<usize, Error>, len: nat) -> Result<usize, Error> {
    match native {
        Ok(n) => Ok(if n <= len { n } else { len as usize }),
        Err(e) => Err(e),
    }
}

/// The caller's buffer after a staged read: what was read, taken from the
/// front of the staging area, and behind it the bytes that were there
/// before; after a failure, the buffer as it was.
pub open spec fn delivered(before: Seq<u8>, stage: Seq<u8>, res: Result<usize, Error>) -> Seq<u8> {
    match res {
        Ok(n) => stage.subrange(0, n as int) + before.subrange(n as int, before.len() as int),
        Err(_) => before,
    }
}

/// What a read through a staging area at `stage_addr` does: one native read
/// into the staging area, whose count is cut down and whose bytes are
/// delivered.
pub open spec fn staged_read<H: StreamExt + PositionedExt>(
    h: &H,
    before: Seq<u8>,
    stage_addr: usize,
    stage_before: Seq<u8>,
    offset: Option<u64>,
    stage_after: Seq<u8>,
    after: Seq<u8>,
    res: Result<usize, Error>,
) -> bool {
    exists|native: Result<usize, Error>| #[trigger]
        read_rel(h, stage_addr, stage_before, offset, stage_after, native) && res == clamp(
            native,
            before.len(),
        ) && after == delivered(before, stage_after, res)
}

/// Copies the first `n` bytes of `src` over the first `n` bytes of `dst`.
pub fn copy_prefix(dst: &mut [u8], src: &[u8], n: usize)
    requires
        n <= old(dst)@.len(),
        n <= src@.len(),
    ensures
        final(dst)@ == src@.subrange(0, n as int) + old(dst)@.subrange(
            n as int,
            old(dst)@.len() as int,
        ),
{
    let mut i: usize = 0;
    while i < n
        invariant
            i <= n,
            n <= src@.len(),
            dst@.len() == old(dst)@.len(),
            n <= dst@.len(),
            forall|k: int| 0 <= k < i ==> dst@[k] == src@[k],
            forall|k: int| i <= k < dst@.len() ==> dst@[k] == old(dst)@[k],
        decreases n - i,
    {
        dst[i] = src[i];
        i = i + 1;
    }
    proof {
        assert(dst@ =~= src@.subrange(0, n as int) + old(dst)@.subrange(
            n as int,
            old(dst)@.len() as int,
        ));
    }
}

/// Makes one native read into `buf`, which lies at `addr`, at the stream
/// position or at the offset given.
pub fn native_read<H: StreamExt + PositionedExt>(
    h: &H,
    buf: &mut [u8],
    addr: usize,
    offset: Option<u64>,
) -> (res: Result<usize, Error>)
    requires
        stageable(old(buf)@.len() as int),
    ensures
        final(buf)@.len() == old(buf)@.len(),
        res matches Ok(n) ==> n <= old(buf)@.len(),
        read_rel(h, addr, old(buf)@, offset, final(buf)@, res),
{
    match offset {
        Some(o) => h.read_at(buf, addr, o),
        None => h.read(buf, addr),
    }
}

/// Makes one native write from `buf`, which lies at `addr`, at the stream
/// position or at the offset given.
pub fn native_write<H: StreamExt + PositionedExt>(
    h: &H,
    buf: &[u8],
    addr: usize,
    offset: Option<u64>,
) -> (res: Result<usize, Error>)
    requires
        stageable(buf@.len() as int),
    ensures
        res matches Ok(n) ==> n <= buf@.len(),
        write_rel(h, addr, buf@, offset, res),
{
    match offset {
        Some(o) => h.write_at(buf, addr, o),
        None => h.write(buf, addr),
    }
}

/// Ends a staged read: given what the native read into the staging area
/// returned, delivers to `buf` as many bytes as were read and as `buf`
/// holds, and returns their number.
pub fn finish_read(
    buf: &mut [u8],
    stage: &[u8],
    native: Result<usize, Error>,
) -> (res: Result<usize, Error>)
    requires
        old(buf)@.len() <= stage@.len(),
    ensures
        res == clamp(native, old(buf)@.len()),
        final(buf)@ == delivered(old(buf)@, stage@, res),
        res matches Ok(n) ==> n <= old(buf)@.len(),
{
    match native {
        Ok(n) => {
            let len: usize = buf.len();
            let taken: usize = if n <= len { n } else { len };
            copy_prefix(buf, stage, taken);
            Ok(taken)
        },
        Err(e) => Err(e),
    }
}

/// Reads through a staging area: one native read into `stage`, which lies
/// at `stage_addr`, then the delivery of what was read to `buf`.
pub fn read_staged<H: StreamExt + PositionedExt>(
    h: &H,
    buf: &mut [u8],
    stage: &mut [u8],
    stage_addr: usize,
    offset: Option<u64>,
) -> (res: Result<usize, Error>)
    requires
        old(buf)@.len() <= old(stage)@.len(),
        stageable(old(stage)@.len() as int),
    ensures
        final(buf)@.len() == old(buf)@.len(),
        final(stage)@.len() == old(stage)@.len(),
        res matches Ok(n) ==> n <= old(buf)@.len(),
        staged_read(
            h,
            old(buf)@,
            stage_addr,
            old(stage)@,
            offset,
            final(stage)@,
            final(buf)@,
            res,
        ),
{
    let native = native_read(h, stage, stage_addr, offset);
    finish_read(buf, stage, native)
}

/// Writes through a staging area: copies `buf` over `stage`, which lies at
/// `stage_addr`, then makes one native write from `stage`, whose result is
/// returned as it is.
pub fn write_staged<H: StreamExt + PositionedExt>(
    h: &H,
    buf: &[u8],
    stage: &mut [u8],
    stage_addr: usize,
    offset: Option<u64>,
) -> (res: Result<usize, Error>)
    requires
        buf@.len() == old(stage)@.len(),
        stageable(buf@.len() as int),
    ensures
        final(stage)@ == buf@,
        res matches Ok(n) ==> n <= buf@.len(),
        write_rel(h, stage_addr, buf@, offset, res),
{
    copy_prefix(stage, buf, buf.len());
    proof {
        assert(stage@ =~= buf@);
    }
    native_write(h, stage, stage_addr, offset)
}

/// Reads through an aligned buffer that holds at least the length of `buf`
/// rounded up to `aligned_len`: the native read is given the front of the
/// buffer, at the buffer's address, which is a multiple of the alignment
/// unit. The buffer keeps its address and its length.
pub fn read_through<H: StreamExt + PositionedExt>(
    h: &H,
    buf: &mut [u8],
    stage: &mut AlignedBuf,
    aligned_len: usize,
    offset: Option<u64>,
) -> (res: Result<usize, Error>)
    requires
        old(stage).wf(),
        old(buf)@.len() <= aligned_len <= old(stage).spec_len(),
        stageable(aligned_len as int),
    ensures
        final(stage).wf(),
        final(stage).address() == old(stage).address(),
        final(stage).spec_len() == old(stage).spec_len(),
        final(buf)@.len() == old(buf)@.len(),
        res matches Ok(n) ==> n <= old(buf)@.len(),
        is_aligned(old(stage).address() as int),
        staged_read(
            h,
            old(buf)@,
            old(stage).address(),
            old(stage)@.bytes.subrange(0, aligned_len as int),
            offset,
            final(stage)@.bytes.subrange(0, aligned_len as int),
            final(buf)@,
            res,
        ),
{
    proof {
        stage.lemma_wf();
    }
    let stage_addr = stage.addr();
    let region = stage.as_mut_slice();
    let (head, tail) = region.split_at_mut(aligned_len);
    let res = read_staged(h, buf, head, stage_addr, offset);
    proof {
        assert((head@ + tail@).subrange(0, aligned_len as int) =~= head@);
    }
    res
}

/// Writes through an aligned buffer that holds at least as many bytes as
/// `buf`: the native write is given the front of the buffer, at the
/// buffer's address, which is a multiple of the alignment unit. The buffer
/// keeps its address and its length.
pub fn write_through<H: StreamExt + PositionedExt>(
    h: &H,
    buf: &[u8],
    stage: &mut AlignedBuf,
    offset: Option<u64>,
) -> (res: Result<usize, Error>)
    requires
        old(stage).wf(),
        buf@.len() <= old(stage).spec_len(),
        stageable(buf@.len() as int),
    ensures
        final(stage).wf(),
        final(stage).address() == old(stage).address(),
        final(stage).spec_len() == old(stage).spec_len(),
        final(stage)@.bytes.subrange(0, buf@.len() as int) == buf@,
        res matches Ok(n) ==> n <= buf@.len(),
        is_aligned(old(stage).address() as int),
        write_rel(h, old(stage).address(), buf@, offset, res),
{
    proof {
        stage.lemma_wf();
    }
    let stage_addr = stage.addr();
    let region = stage.as_mut_slice();
    let (head, tail) = region.split_at_mut(buf.len());
    let res = write_staged(h, buf, head, stage_addr, offset);
    proof {
        assert((head@ + tail@).subrange(0, buf@.len() as int) =~= head@);
    }
    res
}

} // verus!
