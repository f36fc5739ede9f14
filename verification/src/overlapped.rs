//! The numbers that a scatter or gather request is described by where the
//! operating system takes the offset in two halves and the length as one
//! total.

use vstd::prelude::*;
use crate::ext::contents;

verus! {

/// The low and the high 32 bits of an offset.
pub open spec fn spec_offset_halves(offset: u64) -> (u32, u32) {
    ((offset as int % 0x1_0000_0000) as u32, (offset as int / 0x1_0000_0000) as u32)
}

/// Splits an offset into its low and its high 32 bits.
pub fn offset_halves(offset: u64) -> (halves: (u32, u32))
    ensures
        halves == spec_offset_halves(offset),
        halves.0 + halves.1 * 0x1_0000_0000 == offset,
{
    let low: u32 = (offset % 0x1_0000_0000) as u32;
    let high: u32 = (offset / 0x1_0000_0000) as u32;
    (low, high)
}

/// The sum of the lengths of the first `i` buffers.
pub open spec fn total_len(bufs: Seq<Seq<u8>>, i: int) -> int
    decreases i,
{
    if i <= 0 {
        0
    } else {
        total_len(bufs, i - 1) + bufs[i - 1].len()
    }
}

/// Adds up the lengths of the buffers, as far as the sum can be held.
pub fn total_length(bufs: &[&[u8]]) -> (total: Option<usize>)
    ensures
        match total {
            Some(t) => t == total_len(contents(bufs@), bufs@.len() as int),
            None => total_len(contents(bufs@), bufs@.len() as int) > usize::MAX,
        },
{
    let count: usize = bufs.len();
    let mut total: usize = 0;
    let mut i: usize = 0;
    while i < count
        invariant
            i <= count,
            count == bufs@.len(),
            total == total_len(contents(bufs@), i as int),
        decreases count - i,
    {
        let len: usize = bufs[i].len();
        if len > usize::MAX - total {
            proof {
                lemma_total_len_grows(contents(bufs@), i + 1, count as int);
            }
            return None;
        }
        total = total + len;
        i = i + 1;
    }
    Some(total)
}

/// The sum of the lengths never shrinks as buffers are added.
pub proof fn lemma_total_len_grows(bufs: Seq<Seq<u8>>, i: int, j: int)
    requires
        0 <= i <= j,
    ensures
        total_len(bufs, i) <= total_len(bufs, j),
    decreases j - i,
{
    if i < j {
        lemma_total_len_grows(bufs, i, j - 1);
    }
}

} // verus!
