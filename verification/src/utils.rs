//! Small helpers shared by the cryptographic routines: copying and filling
//! buffers, big-endian serialisation of hash states, add/subtract with carry
//! and branch-free comparisons.
use vstd::prelude::*;

verus! {

/// Copies the first `n` elements of `src` over the first `n` of `dst`.
pub fn ms_memcpy<T: Copy>(dst: &mut [T], src: &[T], n: usize)
    requires
        n <= old(dst)@.len(),
        n <= src@.len(),
    ensures
        final(dst)@ == src@.subrange(0, n as int) + old(dst)@.subrange(n as int, old(dst)@.len() as int),
{
    let mut i: usize = 0;
    while i < n
        invariant
            i <= n,
            n <= dst@.len(),
            n <= src@.len(),
            dst@.len() == old(dst)@.len(),
            forall|k: int| 0 <= k < i ==> dst@[k] == src@[k],
            forall|k: int| i <= k < dst@.len() ==> dst@[k] == old(dst)@[k],
        decreases n - i,
    {
        dst[i] = src[i];
        i = i + 1;
    }
    assert(dst@ =~= src@.subrange(0, n as int) + old(dst)@.subrange(n as int, old(dst)@.len() as int));
}

/// Sets the first `n` elements of `dst` to clones of `c`.
pub fn ms_memset<T: Clone>(dst: &mut [T], c: T, n: usize)
    requires
        n <= old(dst)@.len(),
    ensures
        final(dst)@.len() == old(dst)@.len(),
        forall|k: int| 0 <= k < n ==> cloned::<T>(c, #[trigger] final(dst)@[k]),
        forall|k: int| n <= k < old(dst)@.len() ==> #[trigger] final(dst)@[k] == old(dst)@[k],
{
    let mut i: usize = 0;
    while i < n
        invariant
            i <= n,
            n <= dst@.len(),
            dst@.len() == old(dst)@.len(),
            forall|k: int| 0 <= k < i ==> cloned::<T>(c, #[trigger] dst@[k]),
            forall|k: int| i <= k < dst@.len() ==> #[trigger] dst@[k] == old(dst)@[k],
        decreases n - i,
    {
        dst[i] = c.clone();
        i = i + 1;
    }
}

/// Byte `j` (0 = most significant) of `w` in big-endian order.
pub open spec fn be_byte(w: u32, j: int) -> u8 {
    if j == 0 {
        (w >> 24u32) as u8
    } else if j == 1 {
        (w >> 16u32) as u8
    } else if j == 2 {
        (w >> 8u32) as u8
    } else {
        w as u8
    }
}

/// The words of `h`, each as four big-endian bytes.
pub open spec fn words_to_be_bytes(h: Seq<u32>) -> Seq<u8> {
    Seq::new(4 * h.len(), |k: int| be_byte(h[k / 4], k % 4))
}

pub(crate) fn store_be(res: &mut [u8], at: usize, w: u32)
    requires
        at + 4 <= old(res)@.len(),
    ensures
        final(res)@.len() == old(res)@.len(),
        forall|j: int| 0 <= j < 4 ==> #[trigger] final(res)@[at + j] == be_byte(w, j),
        forall|k: int| 0 <= k < old(res)@.len() && !(at <= k < at + 4) ==> #[trigger] final(res)@[k] == old(res)@[k],
{
    res[at] = (w >> 24u32) as u8;
    res[at + 1] = (w >> 16u32) as u8;
    res[at + 2] = (w >> 8u32) as u8;
    res[at + 3] = w as u8;
}

/// The eight words of a SHA-256 state as 32 big-endian bytes.
pub fn convert(data: &[u32; 8]) -> (res: [u8; 32])
    ensures
        res@ == words_to_be_bytes(data@),
{
    let mut res = [0u8; 32];
    for i in 0..8
        invariant
            forall|k: int| 0 <= k < 4 * i ==> #[trigger] res@[k] == be_byte(data@[k / 4], k % 4),
    {
        let ghost prev = res@;
        store_be(&mut res, 4 * i, data[i]);
        proof {
            assert forall|k: int| 0 <= k < 4 * (i + 1) implies #[trigger] res@[k] == be_byte(
                data@[k / 4],
                k % 4,
            ) by {
                if k >= 4 * i {
                    assert(k / 4 == i as int && k % 4 == k - 4 * i) by (nonlinear_arith)
                        requires
                            4 * i <= k < 4 * i + 4,
                    ;
                    assert(res@[4 * i + (k - 4 * i)] == be_byte(data@[i as int], k - 4 * i));
                } else {
                    assert(res@[k] == prev[k]);
                }
            }
        }
    }
    assert(res@ =~= words_to_be_bytes(data@));
    res
}

/// The five words of a SHA-1 state as 20 big-endian bytes.
pub fn convert_5(data: &[u32; 5]) -> (res: [u8; 20])
    ensures
        res@ == words_to_be_bytes(data@),
{
    let mut res = [0u8; 20];
    for i in 0..5
        invariant
            forall|k: int| 0 <= k < 4 * i ==> #[trigger] res@[k] == be_byte(data@[k / 4], k % 4),
    {
        let ghost prev = res@;
        store_be(&mut res, 4 * i, data[i]);
        proof {
            assert forall|k: int| 0 <= k < 4 * (i + 1) implies #[trigger] res@[k] == be_byte(
                data@[k / 4],
                k % 4,
            ) by {
                if k >= 4 * i {
                    assert(k / 4 == i as int && k % 4 == k - 4 * i) by (nonlinear_arith)
                        requires
                            4 * i <= k < 4 * i + 4,
                    ;
                    assert(res@[4 * i + (k - 4 * i)] == be_byte(data@[i as int], k - 4 * i));
                } else {
                    assert(res@[k] == prev[k]);
                }
            }
        }
    }
    assert(res@ =~= words_to_be_bytes(data@));
    res
}

/// `x + y + carry_in` modulo 2^64, and whether it reached 2^64.
pub fn ms_addc_u64(x: u64, y: u64, carry_in: bool) -> (r: (u64, bool))
    ensures
        r.0 == (x + y + (if carry_in { 1int } else { 0int })) % 0x1_0000_0000_0000_0000,
        r.1 == (x + y + (if carry_in { 1int } else { 0int }) >= 0x1_0000_0000_0000_0000),
{
    if carry_in {
        if x == u64::MAX {
            (y, true)
        } else {
            let r = x + 1;
            let s = r.wrapping_add(y);
            (s, s < r)
        }
    } else {
        let s = x.wrapping_add(y);
        (s, s < x)
    }
}

/// `x - y - carry_in` modulo 2^64, and whether it went below zero.
pub fn ms_subc_u64(x: u64, y: u64, carry_in: bool) -> (r: (u64, bool))
    ensures
        r.0 == (x - y - (if carry_in { 1int } else { 0int })) % 0x1_0000_0000_0000_0000,
        r.1 == (x < y || (x == y && carry_in)),
{
    let c: u64 = if carry_in {
        1
    } else {
        0
    };
    let ret = x.wrapping_sub(y).wrapping_sub(c);
    (ret, (x < y) || ((x == y) && carry_in))
}

/// Keeps the bits of `a` where `mask` is set and those of `b` elsewhere.
pub fn constant_time_select(mask: i64, a: i64, b: i64) -> (r: i64)
    ensures
        r == (mask & a) | (!mask & b),
{
    mask & a | (!mask & b)
}

/// 1 when `a` is negative, else 0.
pub fn constant_time_msb(a: i64) -> (r: i64)
    ensures
        r == (if a < 0 { 1i64 } else { 0i64 }),
{
    let s = a >> 63u32;
    assert(s == (if a < 0 { -1i64 } else { 0i64 })) by (bit_vector)
        requires
            s == a >> 63u32,
    ;
    0 - s
}

/// 1 when `a` is zero, else 0.
pub fn constant_time_is_zero(a: i64) -> (r: i64)
    ensures
        r == (if a == 0 { 1i64 } else { 0i64 }),
{
    let d = a.wrapping_sub(1);
    let m = !a & d;
    assert((m < 0) == (a == 0)) by (bit_vector)
        requires
            d == (if a == i64::MIN { i64::MAX } else { (a - 1) as i64 }),
            m == !a & d,
    ;
    constant_time_msb(m)
}

/// 1 when `a == b`, else 0.
pub fn constant_time_eq(a: i64, b: i64) -> (r: i64)
    ensures
        r == (if a == b { 1i64 } else { 0i64 }),
{
    let x = a ^ b;
    assert((x == 0) == (a == b)) by (bit_vector)
        requires
            x == a ^ b,
    ;
    constant_time_is_zero(x)
}

/// 1 when `a` is below `b` as unsigned 64-bit words, else 0.
pub fn constant_time_lt(a: i64, b: i64) -> (r: i64)
    ensures
        r == (if (a as u64) < (b as u64) { 1i64 } else { 0i64 }),
{
    let d = a.wrapping_sub(b);
    let x = a ^ ((a ^ b) | (d ^ a));
    assert((x < 0) == ((a as u64) < (b as u64))) by (bit_vector)
        requires
            d == (if a - b > i64::MAX {
                (a - b - 0x1_0000_0000_0000_0000) as i64
            } else if a - b < i64::MIN {
                (a - b + 0x1_0000_0000_0000_0000) as i64
            } else {
                (a - b) as i64
            }),
            x == a ^ ((a ^ b) | (d ^ a)),
    ;
    constant_time_msb(x)
}

} // verus!
