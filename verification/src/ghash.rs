//! GHASH, the universal hash of GCM: multiplication in GF(2^128) by a hash
//! key, kept in a table in the form the multiplication uses.
use vstd::prelude::*;

verus! {

/// The reduction constant of GCM, `x^128 = x^7 + x^2 + x + 1`, in the
/// reflected bit order.
pub open spec fn gcm_r() -> u128 {
    0xe1000000000000000000000000000000
}

/// The constant that folds the bit shifted out of the hash key back in.
pub open spec fn twist_c() -> u128 {
    0xc2000000000000000000000000000001
}

/// The hash key `h` shifted left by one bit, with the bit shifted out
/// folded back in: the form in which the table holds it.
pub open spec fn twist(h: u128) -> u128 {
    if h >> 127u128 == 1 {
        (h << 1u128) ^ twist_c()
    } else {
        h << 1u128
    }
}

/// The hash key that the twisted key `t` stands for.
pub open spec fn untwist(t: u128) -> u128 {
    if t & 1 == 1 {
        ((t ^ twist_c()) >> 1u128) | 0x80000000000000000000000000000000
    } else {
        t >> 1u128
    }
}

/// The state `(z, v)` after the first `i` steps of multiplying `x` by `y`:
/// bit `127 - k` of `x` adds `v` into `z` at step `k`, and `v` is divided
/// by `x` at each step.
pub open spec fn gf_mul_steps(x: u128, y: u128, i: nat) -> (u128, u128)
    decreases i,
{
    if i == 0 {
        (0, y)
    } else {
        let (z, v) = gf_mul_steps(x, y, (i - 1) as nat);
        let z2 = if (x >> (127 - (i - 1)) as u128) & 1 == 1 { z ^ v } else { z };
        let v2 = if v & 1 == 1 { (v >> 1u128) ^ gcm_r() } else { v >> 1u128 };
        (z2, v2)
    }
}

/// The product of `x` and `y` in GF(2^128), blocks read big-endian.
pub open spec fn gf_mul(x: u128, y: u128) -> u128 {
    gf_mul_steps(x, y, 128).0
}

/// The first `n` bytes of `s` as a big-endian number.
pub open spec fn be_acc(s: Seq<u8>, n: nat) -> u128
    decreases n,
{
    if n == 0 {
        0
    } else {
        (be_acc(s, (n - 1) as nat) << 8u128) | (s[n - 1] as u128)
    }
}

/// The sixteen bytes of `x`, most significant first.
pub open spec fn be_bytes128(x: u128) -> Seq<u8> {
    Seq::new(16, |k: int| (x >> (8 * (15 - k)) as u128) as u8)
}

/// The block of bytes `b` multiplied by the hash key `h`.
pub open spec fn gcm_mul_block(b: Seq<u8>, h: u128) -> Seq<u8> {
    be_bytes128(gf_mul(be_acc(b, 16), h))
}

/// The GHASH state `xi` after absorbing the first `n` blocks of `buf`.
pub open spec fn ghash_blocks(xi: Seq<u8>, h: u128, buf: Seq<u8>, n: nat) -> Seq<u8>
    decreases n,
{
    if n == 0 {
        xi
    } else {
        let prev = ghash_blocks(xi, h, buf, (n - 1) as nat);
        let blk = buf.subrange(16 * (n - 1), 16 * n as int);
        gcm_mul_block(Seq::new(16, |k: int| prev[k] ^ blk[k]), h)
    }
}

fn load_be128(b: &[u8; 16]) -> (r: u128)
    ensures
        r == be_acc(b@, 16),
{
    let mut acc: u128 = 0;
    for i in 0..16
        invariant
            acc == be_acc(b@, i as nat),
    {
        acc = (acc << 8u128) | (b[i] as u128);
    }
    acc
}

pub(crate) fn store_be128(x: u128) -> (r: [u8; 16])
    ensures
        r@ == be_bytes128(x),
{
    let mut r = [0u8; 16];
    for k in 0..16
        invariant
            forall|m: int| 0 <= m < k ==> r@[m] == (x >> (8 * (15 - m)) as u128) as u8,
    {
        r[k] = (x >> (8 * (15 - k)) as u128) as u8;
    }
    assert(r@ =~= be_bytes128(x));
    r
}

fn gf_mul_exec(x: u128, y: u128) -> (r: u128)
    ensures
        r == gf_mul(x, y),
{
    let mut z: u128 = 0;
    let mut v: u128 = y;
    for i in 0..128
        invariant
            (z, v) == gf_mul_steps(x, y, i as nat),
    {
        if (x >> (127 - i) as u128) & 1 == 1 {
            z = z ^ v;
        }
        if v & 1 == 1 {
            v = (v >> 1u128) ^ 0xe1000000000000000000000000000000;
        } else {
            v = v >> 1u128;
        }
    }
    z
}

/// Puts the hash key `h`, given as its high and low 64 bits, into the
/// first entry of `htable` in twisted form; the other entries are kept.
pub fn gcm_init_neon(htable: &mut [u128; 16], h: &[u64; 2])
    ensures
        final(htable)@[0] == twist(((h[0] as u128) << 64u128) | (h[1] as u128)),
        final(htable)@.skip(1) == old(htable)@.skip(1),
{
    let key: u128 = ((h[0] as u128) << 64u128) | (h[1] as u128);
    let t = if key >> 127u128 == 1 {
        (key << 1u128) ^ 0xc2000000000000000000000000000001
    } else {
        key << 1u128
    };
    htable[0] = t;
    assert(htable@.skip(1) =~= old(htable)@.skip(1));
}

/// Multiplies the block `context` by the hash key that `htable` holds.
pub fn gcm_gmult_neon(context: &mut [u8; 16], htable: &[u128; 16])
    ensures
        final(context)@ == gcm_mul_block(old(context)@, untwist(htable@[0])),
{
    let t = htable[0];
    let key = if t & 1 == 1 {
        ((t ^ 0xc2000000000000000000000000000001) >> 1u128) | 0x80000000000000000000000000000000
    } else {
        t >> 1u128
    };
    let x = load_be128(context);
    let z = gf_mul_exec(x, key);
    *context = store_be128(z);
}

/// Absorbs each whole 16-byte block of `buf` into the GHASH state
/// `context`: the block is added in, and the sum multiplied by the hash key
/// that `htable` holds.
pub fn gcm_ghash_neon(context: &mut [u8; 16], htable: &[u128; 16], buf: &[u8])
    requires
        buf@.len() > 32,
    ensures
        final(context)@ == ghash_blocks(old(context)@, untwist(htable@[0]), buf@, buf@.len() / 16),
{
    let len = buf.len();
    let n = len / 16;
    let mut j: usize = 0;
    while j < n
        invariant
            len == buf@.len(),
            n == len / 16,
            j <= n,
            context@ == ghash_blocks(old(context)@, untwist(htable@[0]), buf@, j as nat),
        decreases n - j,
    {
        assert(16 * j + 16 <= len) by (nonlinear_arith)
            requires
                j < n,
                n == len / 16,
        ;
        let ghost prev = context@;
        let mut x = [0u8; 16];
        for k in 0..16
            invariant
                16 * j + 16 <= len,
                len == buf@.len(),
                context@ == prev,
                prev.len() == 16,
                forall|m: int| 0 <= m < k ==> x@[m] == prev[m] ^ buf@[16 * j + m],
        {
            x[k] = context[k] ^ buf[16 * j + k];
        }
        proof {
            let blk = buf@.subrange(16 * j as int, 16 * (j + 1) as int);
            assert(x@ =~= Seq::new(16, |k: int| prev[k] ^ blk[k]));
        }
        gcm_gmult_neon(&mut x, htable);
        *context = x;
        j = j + 1;
    }
}


/// The table that `gcm_init_neon` fills with the key `h` makes
/// `gcm_gmult_neon` and `gcm_ghash_neon` multiply by `h` itself: twisting
/// the key loses nothing.
pub proof fn law_untwist_twist(h: u128)
    ensures
        untwist(twist(h)) == h,
{
    assert(untwist(twist(h)) == h) by (bit_vector);
}

} // verus!
