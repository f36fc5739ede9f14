//! Reads and writes of several buffers in one native call.
//!
//! Every buffer is looked at by itself: one that the operating system
//! accepts is handed over as it is, any other is stood in for by a
//! temporary aligned buffer. The native call sees all of them at once, and
//! returns one count, which is then shared out over the caller's buffers in
//! their order; what a read returns is what the buffers took of it.

use vstd::prelude::*;
use crate::align::{
    is_aligned, is_multiple_of_align, lemma_round_up, lemma_stageable, next_multiple_of_align,
    round_up, stageable,
};
use crate::buffer::{alloc_aligend_buffer, slice_address, zeros, AlignedBuf};
use crate::error::Error;
use crate::ext::{all_stageable, contents, contents_mut, VectoredExt};
use crate::file::File;
use crate::overlapped::total_len;
use crate::scalar::copy_prefix;

verus! {

/// How much of a count of `n` bytes is left when the buffers before the
/// `i`-th have taken their share. Each takes what is left, up to its
/// length.
pub open spec fn remaining(n: nat, lens: Seq<nat>, i: int) -> nat
    decreases i,
{
    if i <= 0 {
        n
    } else {
        let left = remaining(n, lens, i - 1);
        if left <= lens[i - 1] {
            0
        } else {
            (left - lens[i - 1]) as nat
        }
    }
}

/// The share of the `i`-th buffer in a count of `n` bytes: what is left for
/// it, up to its length.
pub open spec fn taken(n: nat, lens: Seq<nat>, i: int) -> nat {
    let left = remaining(n, lens, i);
    if left <= lens[i] {
        left
    } else {
        lens[i]
    }
}

/// The lengths of a list of buffers.
pub open spec fn lengths(bufs: Seq<Seq<u8>>) -> Seq<nat> {
    Seq::new(bufs.len(), |i: int| bufs[i].len())
}

/// Once nothing is left, nothing is left for any later buffer.
pub proof fn lemma_remaining_zero(n: nat, lens: Seq<nat>, i: int, j: int)
    requires
        0 <= i <= j,
        remaining(n, lens, i) == 0,
    ensures
        remaining(n, lens, j) == 0,
    decreases j - i,
{
    if i < j {
        lemma_remaining_zero(n, lens, i, j - 1);
    }
}

/// What is left never grows from one buffer to the next, and all shares up
/// to a buffer together with what is left after them make up the count.
pub proof fn lemma_remaining_sum(n: nat, lens: Seq<nat>, i: int)
    requires
        0 <= i <= lens.len(),
    ensures
        remaining(n, lens, i) <= n,
        remaining(n, lens, i) + shares(n, lens, i) == n,
    decreases i,
{
    if i > 0 {
        lemma_remaining_sum(n, lens, i - 1);
    }
}

/// No buffer takes more than its length, nor more than the count.
pub proof fn lemma_taken_bound(n: nat, lens: Seq<nat>, i: int)
    requires
        0 <= i < lens.len(),
    ensures
        taken(n, lens, i) <= lens[i],
        taken(n, lens, i) <= n,
{
    lemma_remaining_sum(n, lens, i);
}

/// The sum of the shares of the first `i` buffers.
pub open spec fn shares(n: nat, lens: Seq<nat>, i: int) -> nat
    decreases i,
{
    if i <= 0 {
        0
    } else {
        shares(n, lens, i - 1) + taken(n, lens, i - 1)
    }
}

/// What a temporary buffer holds, if there is one.
pub open spec fn staged_bytes(tmp: Option<AlignedBuf>) -> Option<Seq<u8>> {
    match tmp {
        Some(t) => Some(t@.bytes),
        None => None,
    }
}

/// What the temporary buffers of a list hold.
pub open spec fn staged_contents(tmp_bufs: Seq<Option<AlignedBuf>>) -> Seq<Option<Seq<u8>>> {
    Seq::new(tmp_bufs.len(), |i: int| staged_bytes(tmp_bufs[i]))
}

/// The `i`-th buffer after a count of `n` bytes was shared out: where a
/// temporary buffer stood in for it, its share, taken from the front of the
/// temporary buffer, and behind it the bytes that were there before; else
/// the buffer as it was.
pub open spec fn shared_out(
    n: nat,
    before: Seq<Seq<u8>>,
    staged: Seq<Option<Seq<u8>>>,
    i: int,
) -> Seq<u8> {
    if i < staged.len() && staged[i] is Some {
        let share = taken(n, lengths(before), i) as int;
        staged[i]->0.subrange(0, share) + before[i].subrange(share, before[i].len() as int)
    } else {
        before[i]
    }
}

/// Whether the temporary buffers can give the buffers they stand in for
/// their shares of a count of `n` bytes: each is well formed and holds no
/// less than the share of its buffer.
pub open spec fn tmp_bufs_fit(
    n: nat,
    bufs: Seq<Seq<u8>>,
    tmp_bufs: Seq<Option<AlignedBuf>>,
) -> bool {
    forall|i: int|
        0 <= i < bufs.len() && i < tmp_bufs.len() && (#[trigger] tmp_bufs[i]) is Some ==> {
            &&& tmp_bufs[i]->0.wf()
            &&& taken(n, lengths(bufs), i) <= tmp_bufs[i]->0@.bytes.len()
        }
}

/// Shares a count of `n` bytes out over `bufs`, in their order: each buffer
/// takes what is left of the count, up to its length, and where a temporary
/// buffer stood in for it, that many bytes are copied from the temporary
/// buffer into it. It stops when nothing is left. A buffer without a
/// partner in `tmp_bufs` is left alone.
pub fn tmp_bufs_into_bufs(n: usize, bufs: &mut [&mut [u8]], tmp_bufs: Vec<Option<AlignedBuf>>)
    requires
        tmp_bufs_fit(n as nat, contents_mut(old(bufs)@), tmp_bufs@),
    ensures
        final(bufs)@.len() == old(bufs)@.len(),
        forall|i: int|
            0 <= i < old(bufs)@.len() ==> final(final(bufs)@[i])@ == final(old(bufs)@[i])@,
        forall|i: int|
            0 <= i < old(bufs)@.len() ==> final(bufs)@[i]@ == shared_out(
                n as nat,
                contents_mut(old(bufs)@),
                staged_contents(tmp_bufs@),
                i,
            ),
{
    let ghost before = contents_mut(bufs@);
    let ghost lens = lengths(before);
    let ghost staged = staged_contents(tmp_bufs@);
    let count: usize = if bufs.len() <= tmp_bufs.len() {
        bufs.len()
    } else {
        tmp_bufs.len()
    };
    let mut left: usize = n;
    let mut i: usize = 0;
    while i < count && left > 0
        invariant
            i <= count,
            count <= tmp_bufs@.len(),
            count <= bufs@.len(),
            bufs@.len() == old(bufs)@.len(),
            before == contents_mut(old(bufs)@),
            lens == lengths(before),
            staged == staged_contents(tmp_bufs@),
            tmp_bufs_fit(n as nat, before, tmp_bufs@),
            left == remaining(n as nat, lens, i as int),
            forall|k: int| 0 <= k < bufs@.len() ==> final(bufs@[k])@ == final(old(bufs)@[k])@,
            forall|k: int| 0 <= k < i ==> bufs@[k]@ == shared_out(n as nat, before, staged, k),
            forall|k: int| i <= k < bufs@.len() ==> bufs@[k]@ == before[k],
        decreases count - i,
    {
        let len: usize = bufs[i].len();
        let share: usize = if left <= len {
            left
        } else {
            len
        };
        match &tmp_bufs[i] {
            Some(tmp) => {
                proof {
                    tmp.lemma_wf();
                }
                copy_prefix(bufs[i], tmp.as_slice(), share);
            },
            None => {},
        }
        left = left - share;
        i = i + 1;
    }
    proof {
        assert forall|k: int| 0 <= k < old(bufs)@.len() implies bufs@[k]@ == shared_out(
            n as nat,
            before,
            staged,
            k,
        ) by {
            if k >= i {
                if k < staged.len() && staged[k] is Some {
                    if i < count {
                        lemma_remaining_zero(n as nat, lens, i as int, k);
                    }
                }
            }
        }
    }
}

/// Whether the length of every buffer of a list is a multiple of the
/// alignment unit.
pub open spec fn all_lengths_aligned(bufs: Seq<Seq<u8>>) -> bool {
    forall|i: int| 0 <= i < bufs.len() ==> is_aligned(#[trigger] bufs[i].len() as int)
}

/// Whether `descs` can be the addresses of the memory that a native call is
/// given in place of buffers at `addrs`, of which those for which `direct`
/// holds are handed over as they are: every one is a multiple of the
/// alignment unit, and that of a buffer handed over as it is, is the
/// buffer's own.
pub open spec fn descriptor_addresses_ok(
    addrs: Seq<usize>,
    direct: spec_fn(int) -> bool,
    descs: Seq<usize>,
) -> bool {
    &&& descs.len() == addrs.len()
    &&& forall|i: int| 0 <= i < addrs.len() ==> is_aligned(#[trigger] descs[i] as int)
    &&& forall|i: int| 0 <= i < addrs.len() && direct(i) ==> #[trigger] descs[i] == addrs[i]
}

/// What a write of several buffers, which lie at `addrs`, does on a handle
/// `h`: where the length of one of them is no multiple of the alignment
/// unit it fails with `InvalidInput`; else it is one native write of these
/// very bytes, in their order, with the result of that write, each buffer
/// from its own memory where that lies at a multiple of the alignment unit,
/// and else from a copy that does.
pub open spec fn vectored_write_outcome<H: VectoredExt>(
    h: &H,
    addrs: Seq<usize>,
    data: Seq<Seq<u8>>,
    offset: Option<u64>,
    res: Result<usize, Error>,
) -> bool {
    if all_lengths_aligned(data) {
        exists|descs: Seq<usize>|
            descriptor_addresses_ok(addrs, |i: int| is_aligned(addrs[i] as int), descs)
                && #[trigger] h.write_vectored_spec(descs, data, offset, res)
    } else {
        res == Err::<usize, Error>(Error::InvalidInput)
    }
}

/// The addresses of the memory that the native call is given: for each
/// buffer that of its temporary buffer where it has one, else its own.
pub(crate) fn descriptor_addresses(addrs: &[usize], tmp_bufs: &Vec<Option<AlignedBuf>>) -> (descs:
    Vec<usize>)
    requires
        tmp_bufs@.len() == addrs@.len(),
    ensures
        descs@.len() == addrs@.len(),
        forall|i: int|
            0 <= i < addrs@.len() ==> #[trigger] descs@[i] == match tmp_bufs@[i] {
                Some(tmp) => tmp.address(),
                None => addrs@[i],
            },
{
    let count: usize = addrs.len();
    let mut descs: Vec<usize> = Vec::with_capacity(count);
    let mut i: usize = 0;
    while i < count
        invariant
            i <= count,
            count == addrs@.len(),
            tmp_bufs@.len() == addrs@.len(),
            descs@.len() == i,
            forall|k: int|
                0 <= k < i ==> #[trigger] descs@[k] == match tmp_bufs@[k] {
                    Some(tmp) => tmp.address(),
                    None => addrs@[k],
                },
        decreases count - i,
    {
        match &tmp_bufs[i] {
            Some(tmp) => descs.push(tmp.addr()),
            None => descs.push(addrs[i]),
        }
        i = i + 1;
    }
    descs
}

/// Makes one native write of several buffers, which lie at `addrs`, at the
/// stream position or at the offset given.
pub fn native_write_vectored<H: VectoredExt>(
    h: &H,
    bufs: &[&[u8]],
    addrs: &[usize],
    offset: Option<u64>,
) -> (res: Result<usize, Error>)
    requires
        addrs@.len() == bufs@.len(),
        all_stageable(contents(bufs@)),
    ensures
        h.write_vectored_spec(addrs@, contents(bufs@), offset, res),
{
    match offset {
        Some(o) => h.write_vectored_at(bufs, addrs, o),
        None => h.write_vectored(bufs, addrs),
    }
}

/// Makes an aligned copy of `buf`.
pub(crate) fn aligned_copy(buf: &[u8]) -> (copy: AlignedBuf)
    requires
        stageable(buf@.len() as int),
    ensures
        copy.wf(),
        copy@.bytes == buf@,
{
    proof {
        lemma_round_up(buf@.len() as int);
    }
    let mut copy = alloc_aligend_buffer(buf.len());
    proof {
        copy.lemma_wf();
    }
    let region = copy.as_mut_slice();
    copy_prefix(region, buf, buf.len());
    proof {
        assert(region@ =~= buf@);
    }
    copy
}

/// Tells whether the length of every buffer is a multiple of the alignment
/// unit, and refuses the list where one is not.
pub(crate) fn check_lengths(bufs: &[&[u8]]) -> (res: Result<(), Error>)
    ensures
        all_lengths_aligned(contents(bufs@)) <==> res is Ok,
        res matches Err(e) ==> e == Error::InvalidInput,
{
    let count: usize = bufs.len();
    let mut i: usize = 0;
    while i < count
        invariant
            i <= count,
            count == bufs@.len(),
            forall|k: int| 0 <= k < i ==> is_aligned(#[trigger] contents(bufs@)[k].len() as int),
        decreases count - i,
    {
        proof {
            assert(contents(bufs@)[i as int] == bufs@[i as int]@);
        }
        if !is_multiple_of_align(bufs[i].len()) {
            return Err(Error::InvalidInput);
        }
        i = i + 1;
    }
    Ok(())
}

/// Stands in for every buffer that the operating system would refuse for
/// its address: such a buffer gets an aligned copy, any other none.
pub(crate) fn stage_for_write(bufs: &[&[u8]], addrs: &[usize]) -> (tmp_bufs: Vec<
    Option<AlignedBuf>,
>)
    requires
        addrs@.len() == bufs@.len(),
        all_stageable(contents(bufs@)),
    ensures
        tmp_bufs@.len() == bufs@.len(),
        forall|i: int|
            0 <= i < bufs@.len() ==> ((#[trigger] tmp_bufs@[i]) is None <==> is_aligned(
                addrs@[i] as int,
            )),
        forall|i: int|
            0 <= i < bufs@.len() && (#[trigger] tmp_bufs@[i]) is Some ==> tmp_bufs@[i]->0.wf()
                && tmp_bufs@[i]->0@.bytes == bufs@[i]@,
{
    let count: usize = bufs.len();
    let mut tmp_bufs: Vec<Option<AlignedBuf>> = Vec::with_capacity(count);
    let mut i: usize = 0;
    while i < count
        invariant
            i <= count,
            count == bufs@.len(),
            addrs@.len() == bufs@.len(),
            all_stageable(contents(bufs@)),
            tmp_bufs@.len() == i,
            forall|k: int|
                0 <= k < i ==> ((#[trigger] tmp_bufs@[k]) is None <==> is_aligned(
                    addrs@[k] as int,
                )),
            forall|k: int|
                0 <= k < i && (#[trigger] tmp_bufs@[k]) is Some ==> tmp_bufs@[k]->0.wf()
                    && tmp_bufs@[k]->0@.bytes == bufs@[k]@,
        decreases count - i,
    {
        let buf: &[u8] = bufs[i];
        proof {
            assert(contents(bufs@)[i as int] == buf@);
        }
        if is_multiple_of_align(addrs[i]) {
            tmp_bufs.push(None);
        } else {
            tmp_bufs.push(Some(aligned_copy(buf)));
        }
        i = i + 1;
    }
    tmp_bufs
}

/// The buffers that the native write is given: for each of the caller's
/// buffers its aligned copy where it has one, else the buffer itself.
pub(crate) fn write_descriptors<'a>(
    bufs: &'a [&'a [u8]],
    tmp_bufs: &'a Vec<Option<AlignedBuf>>,
) -> (descs: Vec<&'a [u8]>)
    requires
        tmp_bufs@.len() == bufs@.len(),
        forall|i: int|
            0 <= i < bufs@.len() && (#[trigger] tmp_bufs@[i]) is Some ==> tmp_bufs@[i]->0.wf()
                && tmp_bufs@[i]->0@.bytes == bufs@[i]@,
    ensures
        descs@.len() == bufs@.len(),
        contents(descs@) == contents(bufs@),
{
    let count: usize = bufs.len();
    let mut descs: Vec<&[u8]> = Vec::with_capacity(count);
    let mut i: usize = 0;
    while i < count
        invariant
            i <= count,
            count == bufs@.len(),
            tmp_bufs@.len() == bufs@.len(),
            descs@.len() == i,
            forall|k: int|
                0 <= k < bufs@.len() && (#[trigger] tmp_bufs@[k]) is Some ==> tmp_bufs@[k]->0.wf()
                    && tmp_bufs@[k]->0@.bytes == bufs@[k]@,
            forall|k: int| 0 <= k < i ==> (#[trigger] descs@[k])@ == bufs@[k]@,
        decreases count - i,
    {
        match &tmp_bufs[i] {
            Some(tmp) => descs.push(tmp.as_slice()),
            None => descs.push(bufs[i]),
        }
        i = i + 1;
    }
    proof {
        assert(contents(descs@) =~= contents(bufs@));
    }
    descs
}

/// The addresses at which the buffers of a list lie.
pub(crate) fn addresses(bufs: &[&[u8]]) -> (addrs: Vec<usize>)
    ensures
        addrs@.len() == bufs@.len(),
{
    let count: usize = bufs.len();
    let mut addrs: Vec<usize> = Vec::with_capacity(count);
    let mut i: usize = 0;
    while i < count
        invariant
            i <= count,
            count == bufs@.len(),
            addrs@.len() == i,
        decreases count - i,
    {
        addrs.push(slice_address(bufs[i]));
        i = i + 1;
    }
    addrs
}

/// How a call over several buffers is served.
#[derive(Debug, Clone, Copy, PartialEq, Eq, Structural)]
pub enum VectoredPlan {
    /// By the file, which stands in for the buffers that need it and makes
    /// one native call.
    Adapt,
    /// By the raw handle as it is, with the caller's buffers.
    PassThrough,
    /// Not at all: the call fails.
    Refuse,
}

/// The plan for a call over several buffers on a file whose scratch buffer
/// holds `capacity` bytes. Where the operating system scatters and gathers
/// on any file, or the file bypasses the cache (its capacity is not zero),
/// the file serves the call. Else a call at the stream position is passed
/// to the raw handle, and a call at an offset is refused.
pub open spec fn spec_vectored_plan(
    needs_direct_io: bool,
    capacity: usize,
    positioned: bool,
) -> VectoredPlan {
    if !needs_direct_io || capacity != 0 {
        VectoredPlan::Adapt
    } else if positioned {
        VectoredPlan::Refuse
    } else {
        VectoredPlan::PassThrough
    }
}

impl<H> File<H> {
    /// Decides how a call over several buffers is served: `needs_direct_io`
    /// says whether the operating system scatters and gathers only on files
    /// that bypass its cache, `positioned` whether the call names an offset.
    pub fn vectored_plan(&self, needs_direct_io: bool, positioned: bool) -> (plan: VectoredPlan)
        ensures
            plan == spec_vectored_plan(needs_direct_io, self.capacity(), positioned),
    {
        if !needs_direct_io || self.direct_io_buffer_size() != 0 {
            VectoredPlan::Adapt
        } else if positioned {
            VectoredPlan::Refuse
        } else {
            VectoredPlan::PassThrough
        }
    }
}

impl<H: VectoredExt> File<H> {
    /// Writes the buffers, which lie at the addresses given, at the stream
    /// position or at the offset given.
    pub fn write_vectored_with_addresses(
        &self,
        bufs: &[&[u8]],
        addrs: &[usize],
        offset: Option<u64>,
    ) -> (res: Result<usize, Error>)
        requires
            addrs@.len() == bufs@.len(),
            all_stageable(contents(bufs@)),
        ensures
            vectored_write_outcome(self.handle(), addrs@, contents(bufs@), offset, res),
    {
        match check_lengths(bufs) {
            Err(e) => Err(e),
            Ok(()) => {
                let tmp_bufs = stage_for_write(bufs, addrs);
                let desc_addrs = descriptor_addresses(addrs, &tmp_bufs);
                let descs = write_descriptors(bufs, &tmp_bufs);
                proof {
                    assert forall|i: int| 0 <= i < addrs@.len() implies is_aligned(
                        #[trigger] desc_addrs@[i] as int,
                    ) by {
                        if tmp_bufs@[i] is Some {
                            tmp_bufs@[i]->0.lemma_wf();
                        }
                    }
                    assert(descriptor_addresses_ok(
                        addrs@,
                        |i: int| is_aligned(addrs@[i] as int),
                        desc_addrs@,
                    ));
                }
                native_write_vectored(
                    self.as_inner(),
                    descs.as_slice(),
                    desc_addrs.as_slice(),
                    offset,
                )
            },
        }
    }

    /// Writes the buffers, at the stream position or at the offset given.
    /// Where the length of one of them is no multiple of the alignment unit,
    /// the list is refused before anything is handed to the operating
    /// system.
    pub fn write_vectored_helper(&self, bufs: &[&[u8]], offset: Option<u64>) -> (res: Result<
        usize,
        Error,
    >)
        requires
            all_stageable(contents(bufs@)),
        ensures
            exists|addrs: Seq<usize>|
                addrs.len() == bufs@.len() && #[trigger] vectored_write_outcome(
                    self.handle(),
                    addrs,
                    contents(bufs@),
                    offset,
                    res,
                ),
    {
        let addrs = addresses(bufs);
        self.write_vectored_with_addresses(bufs, addrs.as_slice(), offset)
    }
}

/// Whether a buffer to be read into goes to the operating system as it is:
/// its address and its length are both multiples of the alignment unit.
pub open spec fn goes_direct(addr: int, len: int) -> bool {
    is_aligned(addr) && is_aligned(len)
}

/// The buffers that the native read is given, as they are before it: for
/// each of the caller's buffers the buffer itself where it goes direct,
/// else zeros of its length rounded up.
pub open spec fn read_descriptors(addrs: Seq<usize>, before: Seq<Seq<u8>>) -> Seq<Seq<u8>> {
    Seq::new(
        before.len(),
        |i: int|
            if goes_direct(addrs[i] as int, before[i].len() as int) {
                before[i]
            } else {
                zeros(round_up(before[i].len() as int) as nat)
            },
    )
}

/// The caller's buffers when the native read is over and nothing is shared
/// out yet: what the read left in those that went direct, the others as
/// they were.
pub open spec fn read_direct_part(
    addrs: Seq<usize>,
    before: Seq<Seq<u8>>,
    filled: Seq<Seq<u8>>,
) -> Seq<Seq<u8>> {
    Seq::new(
        before.len(),
        |i: int|
            if goes_direct(addrs[i] as int, before[i].len() as int) {
                filled[i]
            } else {
                before[i]
            },
    )
}

/// The temporary buffers when the native read is over: what the read left
/// in them, for the buffers that did not go direct.
pub open spec fn read_staged_part(
    addrs: Seq<usize>,
    before: Seq<Seq<u8>>,
    filled: Seq<Seq<u8>>,
) -> Seq<Option<Seq<u8>>> {
    Seq::new(
        before.len(),
        |i: int|
            if goes_direct(addrs[i] as int, before[i].len() as int) {
                None
            } else {
                Some(filled[i])
            },
    )
}

/// The count that a read into several buffers returns: the bytes that the
/// caller's buffers took of the native count, all shares together; a failure
/// as it is.
pub open spec fn logical_count(native: Result<usize, Error>, lens: Seq<nat>) -> Result<
    usize,
    Error,
> {
    match native {
        Ok(n) => Ok(shares(n as nat, lens, lens.len() as int) as usize),
        Err(e) => Err(e),
    }
}

/// What a read into several buffers, which lie at `addrs`, does on a handle
/// `h`: one native read into the descriptors, each of which lies at a
/// multiple of the alignment unit; after a success its count is
/// shared out over the caller's buffers in their order, and the sum of the
/// shares is returned, which is never more than the buffers hold; a failure
/// is returned as it is.
pub open spec fn vectored_read_outcome<H: VectoredExt>(
    h: &H,
    addrs: Seq<usize>,
    before: Seq<Seq<u8>>,
    offset: Option<u64>,
    after: Seq<Seq<u8>>,
    res: Result<usize, Error>,
) -> bool {
    exists|descs: Seq<usize>, filled: Seq<Seq<u8>>, native: Result<usize, Error>|
        {
            &&& descriptor_addresses_ok(
                addrs,
                |i: int| goes_direct(addrs[i] as int, before[i].len() as int),
                descs,
            )
            &&& #[trigger] h.read_vectored_spec(
                descs,
                read_descriptors(addrs, before),
                offset,
                filled,
                native,
            )
            &&& res == logical_count(native, lengths(before))
            &&& filled.len() == before.len()
            &&& forall|i: int|
                0 <= i < before.len() ==> filled[i].len() == read_descriptors(
                    addrs,
                    before,
                )[i].len()
            &&& after.len() == before.len()
            &&& forall|i: int|
                0 <= i < before.len() ==> after[i] == match native {
                    Ok(n) => shared_out(
                        n as nat,
                        read_direct_part(addrs, before, filled),
                        read_staged_part(addrs, before, filled),
                        i,
                    ),
                    Err(_) => read_direct_part(addrs, before, filled)[i],
                }
        }
}

/// Counts the bytes that the buffers take of a count of `n` bytes: the sum
/// of their shares.
pub fn shared_count(n: usize, bufs: &[&mut [u8]]) -> (total: usize)
    ensures
        total == shares(n as nat, lengths(contents_mut(bufs@)), bufs@.len() as int),
        total <= n,
{
    let ghost lens = lengths(contents_mut(bufs@));
    let count: usize = bufs.len();
    let mut left: usize = n;
    let mut i: usize = 0;
    while i < count && left > 0
        invariant
            i <= count,
            count == bufs@.len(),
            lens == lengths(contents_mut(bufs@)),
            left == remaining(n as nat, lens, i as int),
            left <= n,
        decreases count - i,
    {
        let len: usize = bufs[i].len();
        left = if left <= len {
            0
        } else {
            left - len
        };
        i = i + 1;
    }
    proof {
        if i < count {
            lemma_remaining_zero(n as nat, lens, i as int, count as int);
        }
        lemma_remaining_sum(n as nat, lens, count as int);
    }
    n - left
}

/// Makes one native read into several buffers, which lie at `addrs`, at the
/// stream position or at the offset given.
pub fn native_read_vectored<H: VectoredExt>(
    h: &H,
    bufs: &mut [&mut [u8]],
    addrs: &[usize],
    offset: Option<u64>,
) -> (res: Result<usize, Error>)
    requires
        addrs@.len() == old(bufs)@.len(),
        all_stageable(contents_mut(old(bufs)@)),
    ensures
        final(bufs)@.len() == old(bufs)@.len(),
        forall|i: int| 0 <= i < old(bufs)@.len() ==> final(bufs)@[i]@.len() == old(bufs)@[i]@.len(),
        forall|i: int|
            0 <= i < old(bufs)@.len() ==> final(final(bufs)@[i])@ == final(old(bufs)@[i])@,
        h.read_vectored_spec(
            addrs@,
            contents_mut(old(bufs)@),
            offset,
            contents_mut(final(bufs)@),
            res,
        ),
{
    match offset {
        Some(o) => h.read_vectored_at(bufs, addrs, o),
        None => h.read_vectored(bufs, addrs),
    }
}

/// Stands in for every buffer that does not go direct: such a buffer gets a
/// temporary buffer of zeros, as long as its length rounded up, any other
/// none.
pub(crate) fn stage_for_read(bufs: &[&mut [u8]], addrs: &[usize]) -> (tmp_bufs: Vec<
    Option<AlignedBuf>,
>)
    requires
        addrs@.len() == bufs@.len(),
        all_stageable(contents_mut(bufs@)),
    ensures
        tmp_bufs@.len() == bufs@.len(),
        forall|i: int|
            0 <= i < bufs@.len() ==> ((#[trigger] tmp_bufs@[i]) is None <==> goes_direct(
                addrs@[i] as int,
                bufs@[i]@.len() as int,
            )),
        forall|i: int|
            0 <= i < bufs@.len() && (#[trigger] tmp_bufs@[i]) is Some ==> tmp_bufs@[i]->0.wf()
                && tmp_bufs@[i]->0@.bytes == zeros(round_up(bufs@[i]@.len() as int) as nat),
{
    let count: usize = bufs.len();
    let mut tmp_bufs: Vec<Option<AlignedBuf>> = Vec::with_capacity(count);
    let mut i: usize = 0;
    while i < count
        invariant
            i <= count,
            count == bufs@.len(),
            addrs@.len() == bufs@.len(),
            all_stageable(contents_mut(bufs@)),
            tmp_bufs@.len() == i,
            forall|k: int|
                0 <= k < i ==> ((#[trigger] tmp_bufs@[k]) is None <==> goes_direct(
                    addrs@[k] as int,
                    bufs@[k]@.len() as int,
                )),
            forall|k: int|
                0 <= k < i && (#[trigger] tmp_bufs@[k]) is Some ==> tmp_bufs@[k]->0.wf()
                    && tmp_bufs@[k]->0@.bytes == zeros(round_up(bufs@[k]@.len() as int) as nat),
        decreases count - i,
    {
        let len: usize = bufs[i].len();
        proof {
            assert(contents_mut(bufs@)[i as int].len() == len);
            lemma_round_up(len as int);
            lemma_stageable(len as int);
        }
        if is_multiple_of_align(addrs[i]) && is_multiple_of_align(len) {
            tmp_bufs.push(None);
        } else {
            tmp_bufs.push(Some(alloc_aligend_buffer(next_multiple_of_align(len))));
        }
        i = i + 1;
    }
    tmp_bufs
}

/// The buffers that the native read is given: for each of the caller's
/// buffers its temporary buffer where it has one, else the buffer itself.
/// What the read leaves in a descriptor is what its buffer holds afterwards.
pub(crate) fn read_descriptors_mut<'a>(
    bufs: &'a mut [&mut [u8]],
    tmp_bufs: &'a mut [Option<AlignedBuf>],
) -> (descs: Vec<&'a mut [u8]>)
    requires
        old(tmp_bufs)@.len() == old(bufs)@.len(),
        forall|i: int|
            0 <= i < old(bufs)@.len() && (#[trigger] old(tmp_bufs)@[i]) is Some
                ==> old(tmp_bufs)@[i]->0.wf(),
    ensures
        descs@.len() == old(bufs)@.len(),
        final(bufs)@.len() == old(bufs)@.len(),
        final(tmp_bufs)@.len() == old(bufs)@.len(),
        forall|i: int|
            0 <= i < old(bufs)@.len() ==> final(final(bufs)@[i])@ == final(old(bufs)@[i])@,
        forall|i: int|
            0 <= i < old(bufs)@.len() && old(tmp_bufs)@[i] is None ==> {
                &&& descs@[i]@ == old(bufs)@[i]@
                &&& final(bufs)@[i]@ == final(descs@[i])@
                &&& final(tmp_bufs)@[i] is None
            },
        forall|i: int|
            0 <= i < old(bufs)@.len() && old(tmp_bufs)@[i] is Some ==> {
                &&& descs@[i]@ == old(tmp_bufs)@[i]->0@.bytes
                &&& final(bufs)@[i]@ == old(bufs)@[i]@
                &&& final(tmp_bufs)@[i] is Some
                &&& final(descs@[i])@.len() == descs@[i]@.len() ==> final(tmp_bufs)@[i]->0.wf()
                    && final(tmp_bufs)@[i]->0@.bytes == final(descs@[i])@
            },
{
    let ghost fin_bufs = final(bufs)@;
    let ghost fin_tmps = final(tmp_bufs)@;
    let mut descs: Vec<&mut [u8]> = Vec::new();
    let mut rest_bufs = bufs;
    let mut rest_tmps = tmp_bufs;
    while rest_bufs.len() > 0
        invariant
            rest_tmps@.len() == rest_bufs@.len(),
            descs@.len() + rest_bufs@.len() == old(bufs)@.len(),
            rest_bufs@ == old(bufs)@.subrange(descs@.len() as int, old(bufs)@.len() as int),
            rest_tmps@ == old(tmp_bufs)@.subrange(descs@.len() as int, old(bufs)@.len() as int),
            old(tmp_bufs)@.len() == old(bufs)@.len(),
            forall|i: int|
                0 <= i < old(bufs)@.len() && (#[trigger] old(tmp_bufs)@[i]) is Some
                    ==> old(tmp_bufs)@[i]->0.wf(),
            fin_bufs.len() == descs@.len() + final(rest_bufs)@.len(),
            fin_tmps.len() == descs@.len() + final(rest_tmps)@.len(),
            forall|j: int|
                0 <= j < final(rest_bufs)@.len() ==> fin_bufs[descs@.len() + j]
                    == final(rest_bufs)@[j],
            forall|j: int|
                0 <= j < final(rest_tmps)@.len() ==> fin_tmps[descs@.len() + j]
                    == final(rest_tmps)@[j],
            forall|k: int|
                0 <= k < descs@.len() ==> final(fin_bufs[k])@ == final(old(bufs)@[k])@,
            forall|k: int|
                0 <= k < descs@.len() && old(tmp_bufs)@[k] is None ==> {
                    &&& descs@[k]@ == old(bufs)@[k]@
                    &&& fin_bufs[k]@ == final(descs@[k])@
                    &&& fin_tmps[k] is None
                },
            forall|k: int|
                0 <= k < descs@.len() && old(tmp_bufs)@[k] is Some ==> {
                    &&& descs@[k]@ == old(tmp_bufs)@[k]->0@.bytes
                    &&& fin_bufs[k]@ == old(bufs)@[k]@
                    &&& fin_tmps[k] is Some
                    &&& final(descs@[k])@.len() == descs@[k]@.len() ==> fin_tmps[k]->0.wf()
                        && fin_tmps[k]->0@.bytes == final(descs@[k])@
                },
        decreases rest_bufs@.len(),
    {
        let ghost done = descs@.len() as int;
        let ghost rest_bufs_fin = final(rest_bufs)@;
        let ghost rest_tmps_fin = final(rest_tmps)@;
        let (head_buf, tail_bufs) = rest_bufs.split_at_mut(1);
        let (head_tmp, tail_tmps) = rest_tmps.split_at_mut(1);
        match &mut head_tmp[0] {
            Some(tmp) => {
                descs.push(tmp.as_mut_slice());
            },
            None => {
                descs.push(&mut *head_buf[0]);
            },
        }
        rest_bufs = tail_bufs;
        rest_tmps = tail_tmps;
        proof {
            assert(fin_bufs[done] == rest_bufs_fin[0]);
            assert(fin_tmps[done] == rest_tmps_fin[0]);
            assert forall|j: int| 0 <= j < final(rest_bufs)@.len() implies fin_bufs[descs@.len()
                + j] == final(rest_bufs)@[j] by {
                assert(fin_bufs[done + (j + 1)] == rest_bufs_fin[j + 1]);
            }
            assert forall|j: int| 0 <= j < final(rest_tmps)@.len() implies fin_tmps[descs@.len()
                + j] == final(rest_tmps)@[j] by {
                assert(fin_tmps[done + (j + 1)] == rest_tmps_fin[j + 1]);
            }
        }
    }
    descs
}

/// The addresses at which the buffers of a list lie that can be written
/// to.
pub(crate) fn addresses_mut(bufs: &[&mut [u8]]) -> (addrs: Vec<usize>)
    ensures
        addrs@.len() == bufs@.len(),
{
    let count: usize = bufs.len();
    let mut addrs: Vec<usize> = Vec::with_capacity(count);
    let mut i: usize = 0;
    while i < count
        invariant
            i <= count,
            count == bufs@.len(),
            addrs@.len() == i,
        decreases count - i,
    {
        addrs.push(slice_address(&*bufs[i]));
        i = i + 1;
    }
    addrs
}

impl<H: VectoredExt> File<H> {
    /// Reads into the buffers, which lie at the addresses given, at the
    /// stream position or at the offset given.
    pub fn read_vectored_with_addresses(
        &self,
        bufs: &mut [&mut [u8]],
        addrs: &[usize],
        offset: Option<u64>,
    ) -> (res: Result<usize, Error>)
        requires
            addrs@.len() == old(bufs)@.len(),
            all_stageable(contents_mut(old(bufs)@)),
        ensures
            final(bufs)@.len() == old(bufs)@.len(),
            forall|i: int|
                0 <= i < old(bufs)@.len() ==> final(bufs)@[i]@.len() == old(bufs)@[i]@.len(),
            forall|i: int|
                0 <= i < old(bufs)@.len() ==> final(final(bufs)@[i])@ == final(old(bufs)@[i])@,
            res matches Ok(m) ==> m <= total_len(
                contents_mut(old(bufs)@),
                old(bufs)@.len() as int,
            ),
            vectored_read_outcome(
                self.handle(),
                addrs@,
                contents_mut(old(bufs)@),
                offset,
                contents_mut(final(bufs)@),
                res,
            ),
    {
        let ghost before = contents_mut(bufs@);
        let mut tmp_bufs = stage_for_read(bufs, addrs);
        let ghost tmps_before = tmp_bufs@;
        let desc_addrs = descriptor_addresses(addrs, &tmp_bufs);
        proof {
            assert forall|i: int| 0 <= i < addrs@.len() implies is_aligned(
                #[trigger] desc_addrs@[i] as int,
            ) by {
                if tmps_before[i] is Some {
                    tmps_before[i]->0.lemma_wf();
                }
            }
            assert(descriptor_addresses_ok(
                addrs@,
                |i: int| goes_direct(addrs@[i] as int, before[i].len() as int),
                desc_addrs@,
            ));
        }
        let mut descs = read_descriptors_mut(bufs, tmp_bufs.as_mut_slice());
        let ghost descs_then = descs@;
        let ghost descs_before = contents_mut(descs@);
        proof {
            // A descriptor starts out as the buffer itself, or as the zeros
            // of the temporary buffer that stands in for it.
            assert forall|i: int| 0 <= i < before.len() implies #[trigger] descs_before[i]
                == read_descriptors(addrs@, before)[i] by {
                if tmps_before[i] is None {
                    assert(goes_direct(addrs@[i] as int, before[i].len() as int));
                } else {
                    assert(!goes_direct(addrs@[i] as int, before[i].len() as int));
                }
            }
            assert(descs_before =~= read_descriptors(addrs@, before));
            assert forall|i: int| 0 <= i < descs_before.len() implies stageable(
                #[trigger] descs_before[i].len() as int,
            ) by {
                lemma_stageable(before[i].len() as int);
                lemma_round_up(before[i].len() as int);
            }
        }
        let native = native_read_vectored(
            self.as_inner(),
            descs.as_mut_slice(),
            desc_addrs.as_slice(),
            offset,
        );
        let ghost filled = contents_mut(descs@);
        proof {
            // What the native read left in a descriptor is what the buffer
            // behind the descriptor now holds.
            assert forall|i: int| 0 <= i < before.len() implies final(descs_then[i])@
                == #[trigger] filled[i] && filled[i].len() == descs_before[i].len() by {}
            assert forall|i: int| 0 <= i < before.len() implies #[trigger] contents_mut(bufs@)[i]
                == read_direct_part(addrs@, before, filled)[i] by {
                if tmps_before[i] is None {
                    assert(goes_direct(addrs@[i] as int, before[i].len() as int));
                } else {
                    assert(!goes_direct(addrs@[i] as int, before[i].len() as int));
                }
            }
            assert(contents_mut(bufs@) =~= read_direct_part(addrs@, before, filled));
            assert forall|i: int| 0 <= i < before.len() implies staged_bytes(
                #[trigger] tmp_bufs@[i],
            ) == read_staged_part(addrs@, before, filled)[i] && (tmp_bufs@[i] is Some
                ==> tmp_bufs@[i]->0.wf() && tmp_bufs@[i]->0@.bytes.len() >= before[i].len()) by {
                lemma_round_up(before[i].len() as int);
            }
            assert(staged_contents(tmp_bufs@) =~= read_staged_part(addrs@, before, filled));
            assert forall|i: int| 0 <= i < old(bufs)@.len() implies bufs@[i]@.len()
                == old(bufs)@[i]@.len() by {
                assert(contents_mut(bufs@)[i] == read_direct_part(addrs@, before, filled)[i]);
            }
        }
        proof {
            assert(self.handle().read_vectored_spec(
                desc_addrs@,
                read_descriptors(addrs@, before),
                offset,
                filled,
                native,
            ));
        }
        match native {
            Ok(n) => {
                let ghost staged = staged_contents(tmp_bufs@);
                let ghost mid = contents_mut(bufs@);
                proof {
                    assert forall|i: int|
                        0 <= i < mid.len() && i < tmp_bufs@.len() && (#[trigger] tmp_bufs@[i])
                            is Some implies tmp_bufs@[i]->0.wf() && taken(
                        n as nat,
                        lengths(mid),
                        i,
                    ) <= tmp_bufs@[i]->0@.bytes.len() by {
                        lemma_taken_bound(n as nat, lengths(mid), i);
                    }
                }
                let total = shared_count(n, bufs);
                tmp_bufs_into_bufs(n, bufs, tmp_bufs);
                proof {
                    assert(lengths(mid) =~= lengths(before));
                    lemma_shares_bound(n as nat, before, before.len() as int);
                    assert forall|i: int| 0 <= i < before.len() implies contents_mut(bufs@)[i]
                        == shared_out(n as nat, mid, staged, i) by {}
                    assert forall|i: int| 0 <= i < old(bufs)@.len() implies bufs@[i]@.len()
                        == old(bufs)@[i]@.len() by {
                        assert(bufs@[i]@ == shared_out(n as nat, mid, staged, i));
                        lemma_taken_bound(n as nat, lengths(mid), i);
                    }
                }
                Ok(total)
            },
            Err(e) => Err(e),
        }
    }

    /// Reads into the buffers, at the stream position or at the offset
    /// given. Where a buffer lies decides whether the native call is given
    /// the buffer or a temporary one in its place.
    pub fn read_vectored_helper(&self, bufs: &mut [&mut [u8]], offset: Option<u64>) -> (res: Result<
        usize,
        Error,
    >)
        requires
            all_stageable(contents_mut(old(bufs)@)),
        ensures
            final(bufs)@.len() == old(bufs)@.len(),
            forall|i: int|
                0 <= i < old(bufs)@.len() ==> final(bufs)@[i]@.len() == old(bufs)@[i]@.len(),
            forall|i: int|
                0 <= i < old(bufs)@.len() ==> final(final(bufs)@[i])@ == final(old(bufs)@[i])@,
            res matches Ok(m) ==> m <= total_len(
                contents_mut(old(bufs)@),
                old(bufs)@.len() as int,
            ),
            exists|addrs: Seq<usize>|
                addrs.len() == old(bufs)@.len() && #[trigger] vectored_read_outcome(
                    self.handle(),
                    addrs,
                    contents_mut(old(bufs)@),
                    offset,
                    contents_mut(final(bufs)@),
                    res,
                ),
    {
        let addrs = addresses_mut(bufs);
        self.read_vectored_with_addresses(bufs, addrs.as_slice(), offset)
    }
}

impl<H: VectoredExt> VectoredExt for File<H> {
    /// A read into several buffers does what `vectored_read_outcome` says.
    open spec fn read_vectored_spec(
        &self,
        addrs: Seq<usize>,
        before: Seq<Seq<u8>>,
        offset: Option<u64>,
        after: Seq<Seq<u8>>,
        res: Result<usize, Error>,
    ) -> bool {
        vectored_read_outcome(self.handle(), addrs, before, offset, after, res)
    }

    /// A write of several buffers does what `vectored_write_outcome` says.
    open spec fn write_vectored_spec(
        &self,
        addrs: Seq<usize>,
        data: Seq<Seq<u8>>,
        offset: Option<u64>,
        res: Result<usize, Error>,
    ) -> bool {
        vectored_write_outcome(self.handle(), addrs, data, offset, res)
    }

    fn read_vectored(&self, bufs: &mut [&mut [u8]], addrs: &[usize]) -> (res: Result<
        usize,
        Error,
    >) {
        self.read_vectored_with_addresses(bufs, addrs, None)
    }

    fn read_vectored_at(&self, bufs: &mut [&mut [u8]], addrs: &[usize], offset: u64) -> (res:
        Result<usize, Error>) {
        self.read_vectored_with_addresses(bufs, addrs, Some(offset))
    }

    fn write_vectored(&self, bufs: &[&[u8]], addrs: &[usize]) -> (res: Result<usize, Error>) {
        self.write_vectored_with_addresses(bufs, addrs, None)
    }

    fn write_vectored_at(&self, bufs: &[&[u8]], addrs: &[usize], offset: u64) -> (res: Result<
        usize,
        Error,
    >) {
        self.write_vectored_with_addresses(bufs, addrs, Some(offset))
    }
}

/// A read into several buffers hands the native call a list of the same
/// shape where every length is a multiple of the alignment unit: as many
/// descriptors as buffers, each as long as its buffer.
pub proof fn lemma_read_descriptors_shape(addrs: Seq<usize>, before: Seq<Seq<u8>>)
    requires
        addrs.len() == before.len(),
        all_lengths_aligned(before),
    ensures
        lengths(read_descriptors(addrs, before)) == lengths(before),
{
    assert forall|i: int| 0 <= i < before.len() implies read_descriptors(addrs, before)[i].len()
        == before[i].len() by {
        lemma_round_up(before[i].len() as int);
    }
    assert(lengths(read_descriptors(addrs, before)) =~= lengths(before));
}

/// All shares together are no more than the count, and no more than the
/// buffers hold.
pub proof fn lemma_shares_bound(n: nat, bufs: Seq<Seq<u8>>, i: int)
    requires
        0 <= i <= bufs.len(),
    ensures
        shares(n, lengths(bufs), i) <= n,
        shares(n, lengths(bufs), i) <= total_len(bufs, i),
    decreases i,
{
    lemma_remaining_sum(n, lengths(bufs), i);
    if i > 0 {
        lemma_shares_bound(n, bufs, i - 1);
        lemma_taken_bound(n, lengths(bufs), i - 1);
    }
}

/// A count is shared out in order: after a read into several buffers that
/// returned `m`, the native read returned some count `n`, `m` is the sum of
/// the shares of `n` and no more than the buffers hold, every descriptor
/// lay at a multiple of the alignment unit, and every buffer
/// holds in its share the bytes that the native read left at the front of
/// its descriptor, whether the buffer went direct or was stood in for, and
/// behind its share what it held before or, where it went direct, what the
/// native read left there.
pub proof fn lemma_vectored_read_in_order<H: VectoredExt>(
    h: &H,
    addrs: Seq<usize>,
    before: Seq<Seq<u8>>,
    offset: Option<u64>,
    after: Seq<Seq<u8>>,
    m: usize,
)
    requires
        addrs.len() == before.len(),
        vectored_read_outcome(h, addrs, before, offset, after, Ok(m)),
    ensures
        m <= total_len(before, before.len() as int),
        exists|descs: Seq<usize>, filled: Seq<Seq<u8>>, n: usize|
            {
                &&& descriptor_addresses_ok(
                    addrs,
                    |i: int| goes_direct(addrs[i] as int, before[i].len() as int),
                    descs,
                )
                &&& #[trigger] h.read_vectored_spec(
                    descs,
                    read_descriptors(addrs, before),
                    offset,
                    filled,
                    Ok(n),
                )
                &&& m == shares(n as nat, lengths(before), before.len() as int)
                &&& filled.len() == before.len()
                &&& after.len() == before.len()
                &&& forall|i: int|
                    0 <= i < before.len() ==> (#[trigger] after[i]).len() == before[i].len()
                &&& forall|i: int, j: int|
                    0 <= i < before.len() && 0 <= j < taken(n as nat, lengths(before), i)
                        ==> after[i][j] == filled[i][j]
                &&& forall|i: int, j: int|
                    0 <= i < before.len() && taken(n as nat, lengths(before), i) <= j
                        < before[i].len() ==> after[i][j] == if goes_direct(
                        addrs[i] as int,
                        before[i].len() as int,
                    ) {
                        filled[i][j]
                    } else {
                        before[i][j]
                    }
            },
{
    let (descs, filled, native) = choose|
        descs: Seq<usize>,
        filled: Seq<Seq<u8>>,
        native: Result<usize, Error>,
    |
        {
            &&& descriptor_addresses_ok(
                addrs,
                |i: int| goes_direct(addrs[i] as int, before[i].len() as int),
                descs,
            )
            &&& #[trigger] h.read_vectored_spec(
                descs,
                read_descriptors(addrs, before),
                offset,
                filled,
                native,
            )
            &&& Ok::<usize, Error>(m) == logical_count(native, lengths(before))
            &&& filled.len() == before.len()
            &&& forall|i: int|
                0 <= i < before.len() ==> filled[i].len() == read_descriptors(
                    addrs,
                    before,
                )[i].len()
            &&& after.len() == before.len()
            &&& forall|i: int|
                0 <= i < before.len() ==> after[i] == match native {
                    Ok(n) => shared_out(
                        n as nat,
                        read_direct_part(addrs, before, filled),
                        read_staged_part(addrs, before, filled),
                        i,
                    ),
                    Err(_) => read_direct_part(addrs, before, filled)[i],
                }
        };
    let n = native->Ok_0;
    let mid = read_direct_part(addrs, before, filled);
    let staged = read_staged_part(addrs, before, filled);
    lemma_shares_bound(n as nat, before, before.len() as int);
    assert(h.read_vectored_spec(descs, read_descriptors(addrs, before), offset, filled, Ok(n)));
    assert(lengths(mid) =~= lengths(before)) by {
        assert forall|i: int| 0 <= i < before.len() implies mid[i].len() == before[i].len() by {
            assert(filled[i].len() == read_descriptors(addrs, before)[i].len());
        }
    }
    assert forall|i: int| 0 <= i < before.len() implies {
        &&& (#[trigger] after[i]).len() == before[i].len()
        &&& forall|j: int|
            0 <= j < taken(n as nat, lengths(before), i) ==> after[i][j] == filled[i][j]
        &&& forall|j: int|
            taken(n as nat, lengths(before), i) <= j < before[i].len() ==> after[i][j]
                == if goes_direct(addrs[i] as int, before[i].len() as int) {
                filled[i][j]
            } else {
                before[i][j]
            }
    } by {
        assert(after[i] == shared_out(n as nat, mid, staged, i));
        assert(filled[i].len() == read_descriptors(addrs, before)[i].len());
        lemma_taken_bound(n as nat, lengths(before), i);
        lemma_round_up(before[i].len() as int);
    }
}

} // verus!
