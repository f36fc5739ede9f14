//! The alignment unit and the arithmetic on it.

use vstd::prelude::*;

verus! {

/// The alignment unit: addresses and lengths handed to a direct I/O call are
/// multiples of this many bytes.
pub const ALIGN: usize = 512;

/// Whether `n` is a multiple of the alignment unit.
pub open spec fn is_aligned(n: int) -> bool {
    n % (ALIGN as int) == 0
}

/// The least multiple of the alignment unit that is not below `n`.
pub open spec fn round_up(n: int) -> int {
    if n % (ALIGN as int) == 0 {
        n
    } else {
        n - n % (ALIGN as int) + ALIGN
    }
}

/// The lengths that can be staged: such a length, rounded up and with the
/// slack that aligning a region takes, stays within what one allocation may
/// hold.
pub open spec fn stageable(len: int) -> bool {
    0 <= len && round_up(len) + ALIGN <= isize::MAX
}

/// What can be staged can still be staged once it is rounded up, and so can
/// everything shorter.
pub proof fn lemma_stageable(len: int)
    requires
        stageable(len),
    ensures
        stageable(round_up(len)),
        forall|shorter: int| 0 <= shorter <= len ==> stageable(shorter),
{
    lemma_round_up(len);
}

/// `round_up(n)` is a multiple of the unit, lies in `n .. n + ALIGN`, and no
/// multiple of the unit lies between `n` and it.
pub proof fn lemma_round_up(n: int)
    requires
        0 <= n,
    ensures
        is_aligned(round_up(n)),
        n <= round_up(n) < n + ALIGN,
        is_aligned(n) <==> round_up(n) == n,
        forall|m: int| n <= m && is_aligned(m) ==> round_up(n) <= m,
{
}

/// Tells whether a buffer of `len` bytes can be staged.
pub fn is_stageable(len: usize) -> (b: bool)
    ensures
        b == stageable(len as int),
{
    let most: usize = isize::MAX as usize;
    if len > most - 2 * ALIGN {
        // Rounding up adds less than one unit, so only lengths this close to
        // the limit need a closer look.
        let rem: usize = len % ALIGN;
        if rem == 0 {
            len <= most - ALIGN
        } else {
            len - rem <= most - 2 * ALIGN
        }
    } else {
        proof {
            lemma_round_up(len as int);
        }
        true
    }
}

/// Tells whether `n` is a multiple of the alignment unit.
pub fn is_multiple_of_align(n: usize) -> (b: bool)
    ensures
        b == is_aligned(n as int),
{
    n % ALIGN == 0
}

/// Rounds `n` up to the next multiple of the alignment unit.
pub fn next_multiple_of_align(n: usize) -> (r: usize)
    requires
        n + ALIGN <= usize::MAX,
    ensures
        r == round_up(n as int),
{
    let rem: usize = n % ALIGN;
    if rem == 0 {
        n
    } else {
        n - rem + ALIGN
    }
}

/// How many bytes to skip from `addr` to reach the next multiple of the
/// alignment unit.
pub open spec fn padding(addr: int) -> int {
    round_up(addr) - addr
}

/// Computes the distance from `addr` to the next multiple of the alignment
/// unit.
pub fn padding_of(addr: usize) -> (pad: usize)
    ensures
        pad == padding(addr as int),
        pad < ALIGN,
        is_aligned(addr + pad),
{
    let rem: usize = addr % ALIGN;
    if rem == 0 {
        0
    } else {
        ALIGN - rem
    }
}

} // verus!
