//! SHA-256: the compression function over 64-byte blocks, and the digest of
//! a whole message.
use vstd::prelude::*;
use crate::md32::{fold_blocks, bit_count, md32_digest, zeros, length_bytes, add_bit_count, put_length,
    lemma_append_short, lemma_fill_block, lemma_append_blocks, lemma_final_one_block,
    lemma_final_two_blocks};
use crate::utils::{ms_memcpy, ms_memset, store_be, convert, words_to_be_bytes, be_byte};

verus! {

/// The round constants of SHA-256.
pub const SHA256_K: [u32; 64] = [
    0x428a2f98, 0x71374491, 0xb5c0fbcf, 0xe9b5dba5, 0x3956c25b, 0x59f111f1, 0x923f82a4, 0xab1c5ed5,
    0xd807aa98, 0x12835b01, 0x243185be, 0x550c7dc3, 0x72be5d74, 0x80deb1fe, 0x9bdc06a7, 0xc19bf174,
    0xe49b69c1, 0xefbe4786, 0x0fc19dc6, 0x240ca1cc, 0x2de92c6f, 0x4a7484aa, 0x5cb0a9dc, 0x76f988da,
    0x983e5152, 0xa831c66d, 0xb00327c8, 0xbf597fc7, 0xc6e00bf3, 0xd5a79147, 0x06ca6351, 0x14292967,
    0x27b70a85, 0x2e1b2138, 0x4d2c6dfc, 0x53380d13, 0x650a7354, 0x766a0abb, 0x81c2c92e, 0x92722c85,
    0xa2bfe8a1, 0xa81a664b, 0xc24b8b70, 0xc76c51a3, 0xd192e819, 0xd6990624, 0xf40e3585, 0x106aa070,
    0x19a4c116, 0x1e376c08, 0x2748774c, 0x34b0bcb5, 0x391c0cb3, 0x4ed8aa4a, 0x5b9cca4f, 0x682e6ff3,
    0x748f82ee, 0x78a5636f, 0x84c87814, 0x8cc70208, 0x90befffa, 0xa4506ceb, 0xbef9a3f7, 0xc67178f2,
];

/// `x + y` modulo 2^32.
pub open spec fn add32(x: u32, y: u32) -> u32 {
    ((x + y) % 0x1_0000_0000) as u32
}

pub(crate) fn wadd(x: u32, y: u32) -> (r: u32)
    ensures
        r == add32(x, y),
{
    x.wrapping_add(y)
}

/// `x` rotated right by `n` bits.
pub open spec fn rotr(x: u32, n: u32) -> u32 {
    (x >> n) | (x << (32 - n) as u32)
}

pub open spec fn ch(x: u32, y: u32, z: u32) -> u32 {
    (x & y) ^ (!x & z)
}

pub open spec fn maj(x: u32, y: u32, z: u32) -> u32 {
    (x & y) ^ (x & z) ^ (y & z)
}

pub open spec fn big_sigma0(x: u32) -> u32 {
    rotr(x, 2) ^ rotr(x, 13) ^ rotr(x, 22)
}

pub open spec fn big_sigma1(x: u32) -> u32 {
    rotr(x, 6) ^ rotr(x, 11) ^ rotr(x, 25)
}

pub open spec fn small_sigma0(x: u32) -> u32 {
    rotr(x, 7) ^ rotr(x, 18) ^ (x >> 3u32)
}

pub open spec fn small_sigma1(x: u32) -> u32 {
    rotr(x, 17) ^ rotr(x, 19) ^ (x >> 10u32)
}

/// The big-endian word at bytes `4 * j .. 4 * j + 4` of `b`.
pub open spec fn be_word(b: Seq<u8>, j: int) -> u32 {
    ((b[4 * j] as u32) << 24u32) | ((b[4 * j + 1] as u32) << 16u32) | ((b[4 * j + 2] as u32)
        << 8u32) | (b[4 * j + 3] as u32)
}

/// Word `t` of the message schedule of `block`.
pub open spec fn sha256_schedule(block: Seq<u8>, t: nat) -> u32
    decreases t,
{
    if t < 16 {
        be_word(block, t as int)
    } else {
        add32(
            add32(
                add32(
                    small_sigma1(sha256_schedule(block, (t - 2) as nat)),
                    sha256_schedule(block, (t - 7) as nat),
                ),
                small_sigma0(sha256_schedule(block, (t - 15) as nat)),
            ),
            sha256_schedule(block, (t - 16) as nat),
        )
    }
}

/// One round on the working variables `s`, with round constant `k` and
/// schedule word `w`.
pub open spec fn sha256_round(s: Seq<u32>, k: u32, w: u32) -> Seq<u32> {
    let t1 = add32(add32(add32(add32(s[7], big_sigma1(s[4])), ch(s[4], s[5], s[6])), k), w);
    let t2 = add32(big_sigma0(s[0]), maj(s[0], s[1], s[2]));
    seq![add32(t1, t2), s[0], s[1], s[2], add32(s[3], t1), s[4], s[5], s[6]]
}

/// The working variables after the first `t` rounds on `block` from `h`.
pub open spec fn sha256_rounds(h: Seq<u32>, block: Seq<u8>, t: nat) -> Seq<u32>
    decreases t,
{
    if t == 0 {
        h
    } else {
        sha256_round(
            sha256_rounds(h, block, (t - 1) as nat),
            SHA256_K@[t - 1],
            sha256_schedule(block, (t - 1) as nat),
        )
    }
}

/// The SHA-256 compression of one 64-byte `block` into the state `h`.
#[verifier::opaque]
pub open spec fn sha256_compress(h: Seq<u32>, block: Seq<u8>) -> Seq<u32> {
    let s = sha256_rounds(h, block, 64);
    Seq::new(8, |i: int| add32(h[i], s[i]))
}

/// The compression function as a value.
pub open spec fn sha256_f() -> spec_fn(Seq<u32>, Seq<u8>) -> Seq<u32> {
    |h: Seq<u32>, b: Seq<u8>| sha256_compress(h, b)
}

/// The state after compressing the first `n` 64-byte blocks of `msg` into `h`.
pub open spec fn sha256_blocks(h: Seq<u32>, msg: Seq<u8>, n: nat) -> Seq<u32> {
    fold_blocks(sha256_f(), h, msg, n)
}

/// The initial state of SHA-256.
pub open spec fn sha256_iv() -> Seq<u32> {
    seq![0x6a09e667u32, 0xbb67ae85, 0x3c6ef372, 0xa54ff53a, 0x510e527f, 0x9b05688c, 0x1f83d9ab, 0x5be0cd19]
}

/// The SHA-256 digest of `msg`.
pub open spec fn sha256_spec(msg: Seq<u8>) -> Seq<u8> {
    md32_digest(sha256_f(), sha256_iv(), msg)
}

pub(crate) fn rotr_exec(x: u32, n: u32) -> (r: u32)
    requires
        0 < n < 32,
    ensures
        r == rotr(x, n),
{
    (x >> n) | (x << (32 - n))
}

pub(crate) fn load_be_word(input: &[u8], off: usize, j: usize) -> (r: u32)
    requires
        off + 64 <= input@.len(),
        j < 16,
    ensures
        r == be_word(input@.subrange(off as int, off + 64), j as int),
{
    let len = input.len();
    let o = off + 4 * j;
    ((input[o] as u32) << 24u32) | ((input[o + 1] as u32) << 16u32) | ((input[o + 2] as u32) << 8u32)
        | (input[o + 3] as u32)
}

/// Compresses the block `input[off..off + 64]` into `h`.
fn sha256_compress_block(h: &mut [u32; 8], input: &[u8], off: usize)
    requires
        off + 64 <= input@.len(),
    ensures
        final(h)@ == sha256_compress(old(h)@, input@.subrange(off as int, off + 64)),
{
    let ghost block = input@.subrange(off as int, off + 64);
    let mut w = [0u32; 64];
    for t in 0..16
        invariant
            off + 64 <= input@.len(),
            block == input@.subrange(off as int, off + 64),
            forall|j: int| 0 <= j < t ==> w@[j] == sha256_schedule(block, j as nat),
    {
        w[t] = load_be_word(input, off, t);
    }
    for t in 16..64
        invariant
            forall|j: int| 0 <= j < t ==> w@[j] == sha256_schedule(block, j as nat),
    {
        let x2 = w[t - 2];
        let s1 = rotr_exec(x2, 17) ^ rotr_exec(x2, 19) ^ (x2 >> 10u32);
        let x15 = w[t - 15];
        let s0 = rotr_exec(x15, 7) ^ rotr_exec(x15, 18) ^ (x15 >> 3u32);
        w[t] = wadd(wadd(wadd(s1, w[t - 7]), s0), w[t - 16]);
    }
    let mut a = h[0];
    let mut b = h[1];
    let mut c = h[2];
    let mut d = h[3];
    let mut e = h[4];
    let mut f = h[5];
    let mut g = h[6];
    let mut hh = h[7];
    for t in 0..64
        invariant
            forall|j: int| 0 <= j < 64 ==> w@[j] == sha256_schedule(block, j as nat),
            seq![a, b, c, d, e, f, g, hh] == sha256_rounds(old(h)@, block, t as nat),
            h@ == old(h)@,
    {
        let s1 = rotr_exec(e, 6) ^ rotr_exec(e, 11) ^ rotr_exec(e, 25);
        let chv = (e & f) ^ (!e & g);
        let t1 = wadd(wadd(wadd(wadd(hh, s1), chv), SHA256_K[t]), w[t]);
        let s0 = rotr_exec(a, 2) ^ rotr_exec(a, 13) ^ rotr_exec(a, 22);
        let mj = (a & b) ^ (a & c) ^ (b & c);
        let t2 = wadd(s0, mj);
        hh = g;
        g = f;
        f = e;
        e = wadd(d, t1);
        d = c;
        c = b;
        b = a;
        a = wadd(t1, t2);
    }
    let ghost s = seq![a, b, c, d, e, f, g, hh];
    h[0] = wadd(h[0], a);
    h[1] = wadd(h[1], b);
    h[2] = wadd(h[2], c);
    h[3] = wadd(h[3], d);
    h[4] = wadd(h[4], e);
    h[5] = wadd(h[5], f);
    h[6] = wadd(h[6], g);
    h[7] = wadd(h[7], hh);
    reveal(sha256_compress);
    assert(h@ =~= sha256_compress(old(h)@, block));
}

/// Compresses each whole 64-byte block of `input` in turn into `context`.
pub fn sha256_block_data_order(context: &mut [u32; 8], input: &[u8])
    requires
        input@.len() >= 64,
    ensures
        final(context)@ == sha256_blocks(old(context)@, input@, input@.len() / 64),
{
    let len = input.len();
    let n = len / 64;
    let mut i: usize = 0;
    while i < n
        invariant
            len == input@.len(),
            n == input@.len() / 64,
            i <= n,
            context@ == sha256_blocks(old(context)@, input@, i as nat),
        decreases n - i,
    {
        assert(64 * i + 64 <= input@.len()) by (nonlinear_arith)
            requires
                i < n,
                n == input@.len() / 64,
        ;
        sha256_compress_block(context, input, 64 * i);
        i = i + 1;
    }
}


pub const SHA256_DIGEST_LENGTH: u32 = 32;
const SHA256_CBLOCK: usize = 64;

/// A running SHA-256 computation.
pub struct Sha256StateSt {
    pub h: [u32; 8],
    pub nl: u32,
    pub nh: u32,
    pub data: [u8; 64],
    pub num: u32,
    pub md_len: u32,
    /// The bytes consumed so far.
    pub consumed: Ghost<Seq<u8>>,
}

pub type SHA256_CTX = Sha256StateSt;

impl Sha256StateSt {
    /// The state words and pending bytes agree with having consumed `m`.
    pub open spec fn blocks_ok(&self, m: Seq<u8>) -> bool {
        &&& self.data@.len() == 64
        &&& self.num == m.len() % 64
        &&& self.data@.take(self.num as int) == m.skip(m.len() - self.num)
        &&& self.h@ == sha256_blocks(sha256_iv(), m, m.len() / 64)
    }

    /// The fields agree with the bytes consumed so far.
    pub open spec fn inv(&self) -> bool {
        &&& self.blocks_ok(self.consumed@)
        &&& self.nh * 0x1_0000_0000 + self.nl == bit_count(self.consumed@.len())
    }

    pub fn init() -> (s: Self)
        ensures
            s.inv(),
            s.consumed@ == Seq::<u8>::empty(),
            s.md_len == SHA256_DIGEST_LENGTH,
    {
        let s = Self {
            h: [
                0x6a09e667, 0xbb67ae85, 0x3c6ef372, 0xa54ff53a, 0x510e527f, 0x9b05688c, 0x1f83d9ab,
                0x5be0cd19,
            ],
            nl: 0,
            nh: 0,
            data: [0; SHA256_CBLOCK],
            num: 0,
            md_len: SHA256_DIGEST_LENGTH,
            consumed: Ghost(Seq::empty()),
        };
        assert(s.h@ =~= sha256_iv());
        assert(s.data@.take(0) =~= s.consumed@.skip(0));
        s
    }
}

/// With bytes pending, adds bytes of `msg` to them: all of `msg` where that
/// does not complete a block, answering `(len, true)`; otherwise as many as
/// complete it, folding the block and clearing the pending bytes, answering
/// that many and `false`.
fn sha256_fill_pending(ctx: &mut SHA256_CTX, msg: &[u8], len: usize, Ghost(m): Ghost<Seq<u8>>) -> (r: (usize, bool))
    requires
        old(ctx).blocks_ok(m),
        old(ctx).num != 0,
        len == msg@.len(),
    ensures
        r.1 ==> r.0 == len && final(ctx).blocks_ok(m + msg@),
        !r.1 ==> r.0 <= len && final(ctx).num == 0 && final(ctx).blocks_ok(m + msg@.take(r.0 as int)),
        final(ctx).nl == old(ctx).nl,
        final(ctx).nh == old(ctx).nh,
        final(ctx).md_len == old(ctx).md_len,
        final(ctx).consumed == old(ctx).consumed,
{
    let ghost x = msg@;
    let n = ctx.num as usize;
    if len > SHA256_CBLOCK || len + n >= SHA256_CBLOCK {
        let ghost data0 = ctx.data@;
        {
            let (_head, tail) = ctx.data.split_at_mut(n);
            ms_memcpy(tail, msg, SHA256_CBLOCK - n);
        }
        proof {
            assert(ctx.data@ =~= data0.take(n as int) + x.take(64 - n));
            lemma_fill_block(sha256_f(), sha256_iv(), ctx.h@, data0, n as nat, m, x, ctx.data@);
        }
        let ghost h0 = ctx.h@;
        sha256_block_data_order(&mut ctx.h, &ctx.data);
        proof {
            assert(ctx.data@.subrange(0, 64) =~= ctx.data@);
            assert(fold_blocks(sha256_f(), h0, ctx.data@, 0) == h0);
        }
        ctx.num = 0;
        ms_memset(&mut ctx.data, 0, SHA256_CBLOCK);
        proof {
            let m2 = m + x.take(64 - n);
            assert(ctx.data@.take(0) =~= m2.skip(m2.len() - 0));
        }
        (SHA256_CBLOCK - n, false)
    } else {
        let ghost data0 = ctx.data@;
        {
            let (_head, tail) = ctx.data.split_at_mut(n);
            ms_memcpy(tail, msg, len);
        }
        proof {
            assert(ctx.data@.take(n + len) =~= data0.take(n as int) + x);
            lemma_append_short(sha256_f(), sha256_iv(), ctx.h@, data0, n as nat, m, x, ctx.data@);
        }
        ctx.num = ctx.num + len as u32;
        (len, true)
    }
}

/// With no bytes pending, folds the whole blocks of `msg` and keeps the
/// rest pending.
fn sha256_absorb(ctx: &mut SHA256_CTX, msg: &[u8], Ghost(m): Ghost<Seq<u8>>)
    requires
        old(ctx).blocks_ok(m),
        old(ctx).num == 0,
    ensures
        final(ctx).blocks_ok(m + msg@),
        final(ctx).nl == old(ctx).nl,
        final(ctx).nh == old(ctx).nh,
        final(ctx).md_len == old(ctx).md_len,
        final(ctx).consumed == old(ctx).consumed,
{
    let ghost x = msg@;
    let mut len = msg.len();
    let mut msg = msg;
    let n = len / SHA256_CBLOCK;
    proof {
        lemma_append_blocks(sha256_f(), sha256_iv(), m, x);
    }
    if n > 0 {
        sha256_block_data_order(&mut ctx.h, msg);
        let k = n * SHA256_CBLOCK;
        msg = &msg[k..len];
        len = len - k;
    }
    proof {
        assert(fold_blocks(sha256_f(), old(ctx).h@, x, 0) == old(ctx).h@);
        assert(ctx.h@ == sha256_blocks(sha256_iv(), m + x, (m + x).len() / 64));
        assert(msg@ =~= x.skip(x.len() - x.len() % 64));
        assert(len == x.len() % 64);
    }
    if len != 0 {
        ctx.num = len as u32;
        ms_memcpy(&mut ctx.data, msg, len);
        assert(ctx.data@.take(len as int) =~= msg@);
    } else {
        assert(ctx.data@.take(0) =~= (m + x).skip((m + x).len() - 0));
    }
}

/// Feeds the first `len` bytes of `msg`, all of it, into `ctx`.
pub fn sha256_update(ctx: &mut SHA256_CTX, msg: &[u8], len: usize) -> (res: Result<(), ()>)
    requires
        old(ctx).inv(),
        len == msg@.len(),
    ensures
        final(ctx).inv(),
        final(ctx).consumed@ == old(ctx).consumed@ + msg@,
        final(ctx).md_len == old(ctx).md_len,
        res is Ok,
{
    let ghost m0 = ctx.consumed@;
    let ghost x = msg@;
    if len == 0 {
        assert(m0 + x =~= m0);
        return Ok(());
    }
    let (l, h) = add_bit_count(ctx.nl, ctx.nh, len, Ghost(m0.len()));
    ctx.nh = h;
    ctx.nl = l;
    let mut start: usize = 0;
    if ctx.num != 0 {
        let (taken, finished) = sha256_fill_pending(ctx, msg, len, Ghost(m0));
        if finished {
            ctx.consumed = Ghost(m0 + x);
            return Ok(());
        }
        start = taken;
    }
    let rest = &msg[start..len];
    proof {
        assert(x.take(start as int) + rest@ =~= x);
        assert(start == 0 ==> m0 + x.take(0) =~= m0);
    }
    sha256_absorb(ctx, rest, Ghost(m0 + x.take(start as int)));
    proof {
        assert(m0 + x.take(start as int) + rest@ =~= m0 + x);
    }
    ctx.consumed = Ghost(m0 + x);
    Ok(())
}


/// Writes the byte `0x80` after the `num` pending bytes; where fewer than
/// eight bytes are left after it, clears them and folds the block. Answers
/// where the bit count's block is to be cleared from.
fn put_end_marker(ctx: &mut SHA256_CTX) -> (n: usize)
    requires
        old(ctx).num < 64,
    ensures
        old(ctx).num < 56 ==> n == old(ctx).num + 1 && final(ctx).h@ == old(ctx).h@
            && final(ctx).data@.take(n as int) == old(ctx).data@.take(old(ctx).num as int) + seq![0x80u8],
        old(ctx).num >= 56 ==> n == 0 && final(ctx).h@ == sha256_compress(
            old(ctx).h@,
            old(ctx).data@.take(old(ctx).num as int) + seq![0x80u8] + zeros((63 - old(ctx).num) as nat),
        ),
        final(ctx).nl == old(ctx).nl,
        final(ctx).nh == old(ctx).nh,
        final(ctx).num == old(ctx).num,
        final(ctx).md_len == old(ctx).md_len,
{
    let ghost data0 = ctx.data@;
    let ghost num0 = ctx.num as nat;
    let mut n = ctx.num as usize;
    ctx.data[n] = 0x80;
    n = n + 1;
    if n > SHA256_CBLOCK - 8 {
        {
            let (_head, tail) = ctx.data.split_at_mut(n);
            ms_memset(tail, 0, SHA256_CBLOCK - n);
        }
        let ghost blk1 = data0.take(num0 as int) + seq![0x80u8] + zeros((63 - num0) as nat);
        assert(ctx.data@ =~= blk1);
        n = 0;
        let ghost h0 = ctx.h@;
        sha256_block_data_order(&mut ctx.h, &ctx.data[0..64]);
        proof {
            assert(ctx.data@.subrange(0, 64) =~= blk1);
            assert(blk1.subrange(0, 64) =~= blk1);
            assert(fold_blocks(sha256_f(), h0, blk1, 0) == h0);
        }
    } else {
        assert(ctx.data@.take(n as int) =~= data0.take(num0 as int) + seq![0x80u8]);
    }
    n
}

/// Pads the consumed message, folds the last blocks and clears the
/// buffered block; where the digest length is that of SHA-256, writes the
/// digest to `out`, else refuses and leaves `out` as it was.
pub fn sha256_final(out: &mut [u8], ctx: &mut SHA256_CTX) -> (res: Result<(), ()>)
    requires
        old(ctx).inv(),
        old(out)@.len() == 32,
    ensures
        res is Ok <==> old(ctx).md_len == SHA256_DIGEST_LENGTH,
        res is Ok ==> final(out)@ == sha256_spec(old(ctx).consumed@),
        res is Err ==> final(out)@ == old(out)@,
        words_to_be_bytes(final(ctx).h@) == sha256_spec(old(ctx).consumed@),
        final(ctx).data@ == Seq::new(64, |i: int| 0u8),
{
    let ghost m = ctx.consumed@;
    let ghost data0 = ctx.data@;
    let ghost num0 = ctx.num as nat;
    let ghost bits = bit_count(m.len());
    proof {
        assert(ctx.nh == bits / 0x1_0000_0000 && ctx.nl == bits % 0x1_0000_0000) by (nonlinear_arith)
            requires
                ctx.nh * 0x1_0000_0000 + ctx.nl == bits,
                ctx.nl < 0x1_0000_0000,
        ;
        assert(words_to_be_bytes(seq![ctx.nh, ctx.nl]) == length_bytes(m.len()));
    }
    let n = put_end_marker(ctx);
    let ghost data1 = ctx.data@;
    put_length(&mut ctx.data, n, ctx.nh, ctx.nl);
    let ghost h1 = ctx.h@;
    sha256_block_data_order(&mut ctx.h, &ctx.data[0..64]);
    proof {
        let last = ctx.data@;
        assert(ctx.data@.subrange(0, 64) =~= last);
        assert(last.subrange(0, 64) =~= last);
        assert(fold_blocks(sha256_f(), h1, last, 0) == h1);
        if num0 < 56 {
            let blk = data0.take(num0 as int) + seq![0x80u8] + zeros((55 - num0) as nat)
                + length_bytes(m.len());
            assert(last =~= blk);
            lemma_final_one_block(sha256_f(), sha256_iv(), old(ctx).h@, data0, num0, m, blk);
        } else {
            let blk1 = data0.take(num0 as int) + seq![0x80u8] + zeros((63 - num0) as nat);
            let blk2 = zeros(56) + length_bytes(m.len());
            assert(last =~= blk2);
            lemma_final_two_blocks(sha256_f(), sha256_iv(), old(ctx).h@, data0, num0, m, blk1, blk2);
        }
    }
    ms_memset(&mut ctx.data, 0, SHA256_CBLOCK);
    if ctx.md_len != SHA256_DIGEST_LENGTH {
        return Err(());
    }
    let d = convert(&ctx.h);
    ms_memcpy(out, &d, 32);
    assert(out@ =~= d@);
    Ok(())
}


/// Writes the SHA-256 digest of the first `len` bytes of `data`, all of
/// it, to `out`.
fn sha256(data: &[u8], len: usize, out: &mut [u8])
    requires
        len == data@.len(),
        old(out)@.len() == 32,
    ensures
        final(out)@ == sha256_spec(data@),
{
    let mut ctx = SHA256_CTX::init();
    sha256_update(&mut ctx, data, len).expect("Update");
    assert(Seq::<u8>::empty() + data@ =~= data@);
    sha256_final(out, &mut ctx).expect("Final");
}

/// Writes the SHA-256 digest of `msg` to `output`, which holds 32 bytes.
pub fn sha256_digest(msg: &[u8], output: &mut [u8])
    requires
        old(output)@.len() == 32,
    ensures
        final(output)@ == sha256_spec(msg@),
{
    sha256(msg, msg.len(), output);
}


/// Compressing a run of whole blocks in two pieces is compressing it at
/// once: the state after the first piece is where the second one starts.
pub proof fn law_sha256_blocks_in_pieces(h: Seq<u32>, x: Seq<u8>, y: Seq<u8>)
    requires
        x.len() % 64 == 0,
    ensures
        sha256_blocks(h, x + y, (x + y).len() / 64) == sha256_blocks(sha256_blocks(h, x, x.len() / 64), y, y.len() / 64),
{
    crate::md32::lemma_append_blocks(sha256_f(), h, x, y);
}


/// Byte `j` (0 = least significant) of `w`.
pub open spec fn le_byte(w: u32, j: int) -> u8 {
    if j == 0 {
        w as u8
    } else if j == 1 {
        (w >> 8u32) as u8
    } else if j == 2 {
        (w >> 16u32) as u8
    } else {
        (w >> 24u32) as u8
    }
}

/// The words of `h`, each as four little-endian bytes.
pub open spec fn words_to_le_bytes(h: Seq<u32>) -> Seq<u8> {
    Seq::new(4 * h.len(), |k: int| le_byte(h[k / 4], k % 4))
}

/// The eight words of a SHA-256 state as 32 little-endian bytes.
fn state_le_bytes(data: &[u32; 8]) -> (res: [u8; 32])
    ensures
        res@ == words_to_le_bytes(data@),
{
    let mut res = [0u8; 32];
    for i in 0..8
        invariant
            res@.len() == 32,
            forall|k: int| 0 <= k < 4 * i ==> #[trigger] res@[k] == le_byte(data@[k / 4], k % 4),
    {
        let w = data[i];
        res[4 * i] = w as u8;
        res[4 * i + 1] = (w >> 8u32) as u8;
        res[4 * i + 2] = (w >> 16u32) as u8;
        res[4 * i + 3] = (w >> 24u32) as u8;
        assert forall|k: int| 0 <= k < 4 * (i + 1) implies #[trigger] res@[k] == le_byte(data@[k / 4], k % 4) by {
            if k >= 4 * i {
                assert(k / 4 == i as int && k % 4 == k - 4 * i) by (nonlinear_arith)
                    requires
                        4 * i <= k < 4 * i + 4,
                ;
            }
        }
    }
    assert(res@ =~= words_to_le_bytes(data@));
    res
}

/// Compresses the first 64-byte block of `msg` into the initial SHA-256
/// state, without padding, and writes the state words to `output` as
/// little-endian bytes.
pub fn incomplete_sha256_digest(msg: &[u8], output: &mut [u8])
    requires
        msg@.len() >= 64,
        old(output)@.len() == 32,
    ensures
        final(output)@ == words_to_le_bytes(sha256_blocks(sha256_iv(), msg@.subrange(0, 64), 1)),
{
    let mut context: [u32; 8] = [
        0x6a09e667, 0xbb67ae85, 0x3c6ef372, 0xa54ff53a, 0x510e527f, 0x9b05688c, 0x1f83d9ab,
        0x5be0cd19,
    ];
    assert(context@ =~= sha256_iv());
    sha256_block_data_order(&mut context, &msg[0..64]);
    let d = state_le_bytes(&context);
    ms_memcpy(output, &d, 32);
    assert(output@ =~= d@);
}

/// Streaming: a state that has hashed `m1` and then `m2` after `prefix`
/// agrees with one that hashed `m1 + m2` in one go after `prefix`, in the
/// chaining value, the bit count, the number of pending bytes and the
/// pending bytes themselves (`sha256_update` appends what it hashes to
/// `consumed`, and the invariant fixes these fields from `consumed`).
pub proof fn law_update_in_pieces_or_at_once(
    split: Sha256StateSt,
    whole: Sha256StateSt,
    prefix: Seq<u8>,
    m1: Seq<u8>,
    m2: Seq<u8>,
)
    requires
        split.inv(),
        whole.inv(),
        split.consumed@ == (prefix + m1) + m2,
        whole.consumed@ == prefix + (m1 + m2),
    ensures
        split.h@ == whole.h@,
        split.nl == whole.nl,
        split.nh == whole.nh,
        split.num == whole.num,
        split.data@.take(split.num as int) == whole.data@.take(whole.num as int),
{
    assert((prefix + m1) + m2 =~= prefix + (m1 + m2));
}

} // verus!
