//! The MD5 compression function over 64-byte blocks.
use vstd::prelude::*;
use crate::md32::fold_blocks;
use crate::sha256::{add32, wadd};
use crate::sha1::rotl;

verus! {

/// The additive constants of the 64 steps.
pub const MD5_K: [u32; 64] = [
    0xd76aa478, 0xe8c7b756, 0x242070db, 0xc1bdceee, 0xf57c0faf, 0x4787c62a, 0xa8304613, 0xfd469501,
    0x698098d8, 0x8b44f7af, 0xffff5bb1, 0x895cd7be, 0x6b901122, 0xfd987193, 0xa679438e, 0x49b40821,
    0xf61e2562, 0xc040b340, 0x265e5a51, 0xe9b6c7aa, 0xd62f105d, 0x02441453, 0xd8a1e681, 0xe7d3fbc8,
    0x21e1cde6, 0xc33707d6, 0xf4d50d87, 0x455a14ed, 0xa9e3e905, 0xfcefa3f8, 0x676f02d9, 0x8d2a4c8a,
    0xfffa3942, 0x8771f681, 0x6d9d6122, 0xfde5380c, 0xa4beea44, 0x4bdecfa9, 0xf6bb4b60, 0xbebfbc70,
    0x289b7ec6, 0xeaa127fa, 0xd4ef3085, 0x04881d05, 0xd9d4d039, 0xe6db99e5, 0x1fa27cf8, 0xc4ac5665,
    0xf4292244, 0x432aff97, 0xab9423a7, 0xfc93a039, 0x655b59c3, 0x8f0ccc92, 0xffeff47d, 0x85845dd1,
    0x6fa87e4f, 0xfe2ce6e0, 0xa3014314, 0x4e0811a1, 0xf7537e82, 0xbd3af235, 0x2ad7d2bb, 0xeb86d391,
];

/// The rotation amounts of the 64 steps.
pub const MD5_S: [u32; 64] = [
    7, 12, 17, 22, 7, 12, 17, 22, 7, 12, 17, 22, 7, 12, 17, 22,
    5, 9, 14, 20, 5, 9, 14, 20, 5, 9, 14, 20, 5, 9, 14, 20,
    4, 11, 16, 23, 4, 11, 16, 23, 4, 11, 16, 23, 4, 11, 16, 23,
    6, 10, 15, 21, 6, 10, 15, 21, 6, 10, 15, 21, 6, 10, 15, 21,
];

/// The little-endian word at bytes `4 * j .. 4 * j + 4` of `b`.
pub open spec fn le_word(b: Seq<u8>, j: int) -> u32 {
    ((b[4 * j + 3] as u32) << 24u32) | ((b[4 * j + 2] as u32) << 16u32) | ((b[4 * j + 1] as u32)
        << 8u32) | (b[4 * j] as u32)
}

/// The mixing function of step `i` on `b`, `c`, `d`.
pub open spec fn md5_fn(i: nat, b: u32, c: u32, d: u32) -> u32 {
    if i < 16 {
        (b & c) | (!b & d)
    } else if i < 32 {
        (d & b) | (!d & c)
    } else if i < 48 {
        b ^ c ^ d
    } else {
        c ^ (b | !d)
    }
}

/// The message word that step `i` takes.
pub open spec fn md5_index(i: nat) -> nat {
    if i < 16 {
        i
    } else if i < 32 {
        (5 * i + 1) % 16
    } else if i < 48 {
        (3 * i + 5) % 16
    } else {
        (7 * i) % 16
    }
}

/// Step `i` on the working variables `s` of `block`.
pub open spec fn md5_step(s: Seq<u32>, block: Seq<u8>, i: nat) -> Seq<u32> {
    let f = add32(add32(add32(md5_fn(i, s[1], s[2], s[3]), s[0]), MD5_K@[i as int]), le_word(
        block,
        md5_index(i) as int,
    ));
    seq![s[3], add32(s[1], rotl(f, MD5_S@[i as int])), s[1], s[2]]
}

/// The working variables after the first `t` steps on `block` from `h`.
pub open spec fn md5_steps(h: Seq<u32>, block: Seq<u8>, t: nat) -> Seq<u32>
    decreases t,
{
    if t == 0 {
        h
    } else {
        md5_step(md5_steps(h, block, (t - 1) as nat), block, (t - 1) as nat)
    }
}

/// The MD5 compression of one 64-byte `block` into the state `h`.
#[verifier::opaque]
pub open spec fn md5_compress(h: Seq<u32>, block: Seq<u8>) -> Seq<u32> {
    let s = md5_steps(h, block, 64);
    Seq::new(4, |i: int| add32(h[i], s[i]))
}

/// The compression function as a value.
pub open spec fn md5_f() -> spec_fn(Seq<u32>, Seq<u8>) -> Seq<u32> {
    |h: Seq<u32>, b: Seq<u8>| md5_compress(h, b)
}

/// The state after compressing the first `n` 64-byte blocks of `msg` into `h`.
pub open spec fn md5_blocks(h: Seq<u32>, msg: Seq<u8>, n: nat) -> Seq<u32> {
    fold_blocks(md5_f(), h, msg, n)
}

fn load_le_word(input: &[u8], off: usize, j: usize) -> (r: u32)
    requires
        off + 64 <= input@.len(),
        j < 16,
    ensures
        r == le_word(input@.subrange(off as int, off + 64), j as int),
{
    let len = input.len();
    let o = off + 4 * j;
    ((input[o + 3] as u32) << 24u32) | ((input[o + 2] as u32) << 16u32) | ((input[o + 1] as u32)
        << 8u32) | (input[o] as u32)
}

fn rotl_by(x: u32, n: u32) -> (r: u32)
    requires
        0 < n < 32,
    ensures
        r == rotl(x, n),
{
    (x << n) | (x >> (32 - n))
}

/// Compresses the block `input[off..off + 64]` into the first four words
/// of `h`.
fn md5_compress_block(h: &mut [u32; 16], input: &[u8], off: usize)
    requires
        off + 64 <= input@.len(),
    ensures
        final(h)@.take(4) == md5_compress(old(h)@.take(4), input@.subrange(off as int, off + 64)),
        final(h)@.skip(4) == old(h)@.skip(4),
{
    let ghost block = input@.subrange(off as int, off + 64);
    let mut m = [0u32; 16];
    for j in 0..16
        invariant
            off + 64 <= input@.len(),
            block == input@.subrange(off as int, off + 64),
            forall|k: int| 0 <= k < j ==> m@[k] == le_word(block, k),
    {
        m[j] = load_le_word(input, off, j);
    }
    let mut a = h[0];
    let mut b = h[1];
    let mut c = h[2];
    let mut d = h[3];
    assert(seq![a, b, c, d] =~= old(h)@.take(4));
    for i in 0..64
        invariant
            forall|k: int| 0 <= k < 16 ==> m@[k] == le_word(block, k),
            seq![a, b, c, d] == md5_steps(old(h)@.take(4), block, i as nat),
            h@ == old(h)@,
    {
        let (f, g) = if i < 16 {
            ((b & c) | (!b & d), i)
        } else if i < 32 {
            ((d & b) | (!d & c), (5 * i + 1) % 16)
        } else if i < 48 {
            (b ^ c ^ d, (3 * i + 5) % 16)
        } else {
            (c ^ (b | !d), (7 * i) % 16)
        };
        let s = MD5_S[i];
        assert(0 < s < 32);
        let f2 = wadd(wadd(wadd(f, a), MD5_K[i]), m[g]);
        a = d;
        d = c;
        c = b;
        b = wadd(b, rotl_by(f2, s));
    }
    h[0] = wadd(h[0], a);
    h[1] = wadd(h[1], b);
    h[2] = wadd(h[2], c);
    h[3] = wadd(h[3], d);
    reveal(md5_compress);
    assert(h@.take(4) =~= md5_compress(old(h)@.take(4), block));
    assert(h@.skip(4) =~= old(h)@.skip(4));
}

/// Compresses each whole 64-byte block of `input` in turn into the state
/// held in the first four words of `context`; the other words are kept.
pub fn md5_block_asm_data_order(context: &mut [u32; 16], input: &[u8])
    requires
        input@.len() >= 64,
    ensures
        final(context)@.take(4) == md5_blocks(old(context)@.take(4), input@, input@.len() / 64),
        final(context)@.skip(4) == old(context)@.skip(4),
{
    let len = input.len();
    let n = len / 64;
    let mut i: usize = 0;
    while i < n
        invariant
            len == input@.len(),
            n == input@.len() / 64,
            i <= n,
            context@.take(4) == md5_blocks(old(context)@.take(4), input@, i as nat),
            context@.skip(4) == old(context)@.skip(4),
        decreases n - i,
    {
        assert(64 * i + 64 <= input@.len()) by (nonlinear_arith)
            requires
                i < n,
                n == input@.len() / 64,
        ;
        md5_compress_block(context, input, 64 * i);
        i = i + 1;
    }
}


/// Compressing a run of whole blocks in two pieces is compressing it at
/// once: the state after the first piece is where the second one starts.
pub proof fn law_md5_blocks_in_pieces(h: Seq<u32>, x: Seq<u8>, y: Seq<u8>)
    requires
        x.len() % 64 == 0,
    ensures
        md5_blocks(h, x + y, (x + y).len() / 64) == md5_blocks(md5_blocks(h, x, x.len() / 64), y, y.len() / 64),
{
    crate::md32::lemma_append_blocks(md5_f(), h, x, y);
}

} // verus!
