//! Reversing a run of pixels, for either pixel width.
use vstd::prelude::*;

verus! {

/// A pixel width.
pub trait BitDepth {
    type Pixel: Copy;
}

/// Eight-bit pixels.
pub struct BitDepth8;

/// Sixteen-bit pixels.
pub struct BitDepth16;

impl BitDepth for BitDepth8 {
    type Pixel = u8;
}

impl BitDepth for BitDepth16 {
    type Pixel = u16;
}

/// `dst` holds, in its first `n` places, the last `n` pixels of `src` in
/// reverse order, and keeps its other places.
pub open spec fn reversed_into<T>(dst: Seq<T>, old_dst: Seq<T>, src: Seq<T>, n: nat) -> bool {
    &&& dst.len() == old_dst.len()
    &&& forall|i: int| 0 <= i < n ==> #[trigger] dst[i] == src[src.len() - 1 - i]
    &&& forall|i: int| n <= i < dst.len() ==> #[trigger] dst[i] == old_dst[i]
}

/// Writes the last `n` pixels of `src` into `dst` back to front.
fn reverse_pixels<T: Copy>(dst: &mut [T], src: &[T], n: usize)
    requires
        old(dst)@.len() == src@.len(),
        n <= src@.len(),
    ensures
        reversed_into(final(dst)@, old(dst)@, src@, n as nat),
{
    let len = src.len();
    let mut i: usize = 0;
    while i < n
        invariant
            i <= n <= len,
            len == src@.len(),
            dst@.len() == len,
            forall|k: int| 0 <= k < i ==> #[trigger] dst@[k] == src@[len - 1 - k],
            forall|k: int| i <= k < len ==> #[trigger] dst@[k] == old(dst)@[k],
        decreases n - i,
    {
        dst[i] = src[len - 1 - i];
        i = i + 1;
    }
}

/// Reverses the eight-bit pixels of `src` into `dst`.
fn ipred_reverse_8bpc_neon(dst: &mut [u8], src: &[u8])
    requires
        src@.len() == old(dst)@.len(),
        src@.len() >= 16,
        src@.len() % 16 == 0,
    ensures
        reversed_into(final(dst)@, old(dst)@, src@, src@.len()),
{
    reverse_pixels(dst, src, src.len())
}

/// Reverses the last half of the sixteen-bit pixels of `src` into the first
/// half of `dst`.
fn ipred_reverse_16bpc_neon(dst: &mut [u16], src: &[u16])
    requires
        src@.len() == old(dst)@.len(),
        src@.len() >= 16,
        src@.len() % 16 == 0,
    ensures
        reversed_into(final(dst)@, old(dst)@, src@, src@.len() / 2),
{
    reverse_pixels(dst, src, src.len() / 2)
}

/// The reversal of a run of pixels of one width.
pub trait CallReverse: BitDepth {
    /// How many pixels a run of `len` pixels has reversed.
    spec fn reversed_count(len: nat) -> nat;

    fn call_reverse(dst: &mut [Self::Pixel], src: &[Self::Pixel])
        requires
            src@.len() == old(dst)@.len(),
            src@.len() >= 16,
            src@.len() % 16 == 0,
        ensures
            reversed_into(final(dst)@, old(dst)@, src@, Self::reversed_count(src@.len())),
    ;
}

impl CallReverse for BitDepth8 {
    open spec fn reversed_count(len: nat) -> nat {
        len
    }

    fn call_reverse(dst: &mut [u8], src: &[u8]) {
        ipred_reverse_8bpc_neon(dst, src)
    }
}

impl CallReverse for BitDepth16 {
    open spec fn reversed_count(len: nat) -> nat {
        len / 2
    }

    fn call_reverse(dst: &mut [u16], src: &[u16]) {
        ipred_reverse_16bpc_neon(dst, src)
    }
}

/// Reverses pixels of the width `BD` from `src` into `dst`.
pub fn call_reverse<BD: BitDepth + CallReverse>(dst: &mut [BD::Pixel], src: &[BD::Pixel])
    requires
        src@.len() == old(dst)@.len(),
        src@.len() >= 16,
        src@.len() % 16 == 0,
    ensures
        reversed_into(final(dst)@, old(dst)@, src@, BD::reversed_count(src@.len())),
{
    BD::call_reverse(dst, src);
}

} // verus!
