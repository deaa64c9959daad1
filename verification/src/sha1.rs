//! SHA-1: the compression function over 64-byte blocks, and the digest of a
//! whole message.
use vstd::prelude::*;
use crate::md32::{fold_blocks, bit_count, md32_digest, zeros, length_bytes, add_bit_count, put_length,
    lemma_append_short, lemma_fill_block, lemma_append_blocks, lemma_final_one_block,
    lemma_final_two_blocks};
use crate::sha256::{add32, be_word, wadd, load_be_word};
use crate::utils::{ms_memcpy, ms_memset, convert_5, words_to_be_bytes};

verus! {

/// `x` rotated left by `n` bits.
pub open spec fn rotl(x: u32, n: u32) -> u32 {
    (x << n) | (x >> (32 - n) as u32)
}

fn rotl_exec(x: u32, n: u32) -> (r: u32)
    requires
        0 < n < 32,
    ensures
        r == rotl(x, n),
{
    (x << n) | (x >> (32 - n))
}

/// Word `t` of the message schedule of `block`.
pub open spec fn sha1_schedule(block: Seq<u8>, t: nat) -> u32
    decreases t,
{
    if t < 16 {
        be_word(block, t as int)
    } else {
        rotl(
            sha1_schedule(block, (t - 3) as nat) ^ sha1_schedule(block, (t - 8) as nat)
                ^ sha1_schedule(block, (t - 14) as nat) ^ sha1_schedule(block, (t - 16) as nat),
            1,
        )
    }
}

/// The round function of round `t` on `b`, `c`, `d`.
pub open spec fn sha1_fn(t: nat, b: u32, c: u32, d: u32) -> u32 {
    if t < 20 {
        (b & c) | (!b & d)
    } else if t < 40 {
        b ^ c ^ d
    } else if t < 60 {
        (b & c) | (b & d) | (c & d)
    } else {
        b ^ c ^ d
    }
}

/// The round constant of round `t`.
pub open spec fn sha1_k(t: nat) -> u32 {
    if t < 20 {
        0x5a827999
    } else if t < 40 {
        0x6ed9eba1
    } else if t < 60 {
        0x8f1bbcdc
    } else {
        0xca62c1d6
    }
}

/// One round, number `t`, on the working variables `s` with schedule word
/// `w`.
pub open spec fn sha1_round(s: Seq<u32>, t: nat, w: u32) -> Seq<u32> {
    let temp = add32(add32(add32(add32(rotl(s[0], 5), sha1_fn(t, s[1], s[2], s[3])), s[4]), sha1_k(t)), w);
    seq![temp, s[0], rotl(s[1], 30), s[2], s[3]]
}

/// The working variables after the first `t` rounds on `block` from `h`.
pub open spec fn sha1_rounds(h: Seq<u32>, block: Seq<u8>, t: nat) -> Seq<u32>
    decreases t,
{
    if t == 0 {
        h
    } else {
        sha1_round(sha1_rounds(h, block, (t - 1) as nat), (t - 1) as nat, sha1_schedule(block, (t - 1) as nat))
    }
}

/// The SHA-1 compression of one 64-byte `block` into the state `h`.
#[verifier::opaque]
pub open spec fn sha1_compress(h: Seq<u32>, block: Seq<u8>) -> Seq<u32> {
    let s = sha1_rounds(h, block, 80);
    Seq::new(5, |i: int| add32(h[i], s[i]))
}

/// The compression function as a value.
pub open spec fn sha1_f() -> spec_fn(Seq<u32>, Seq<u8>) -> Seq<u32> {
    |h: Seq<u32>, b: Seq<u8>| sha1_compress(h, b)
}

/// The state after compressing the first `n` 64-byte blocks of `msg` into `h`.
pub open spec fn sha1_blocks(h: Seq<u32>, msg: Seq<u8>, n: nat) -> Seq<u32> {
    fold_blocks(sha1_f(), h, msg, n)
}

/// The initial state of SHA-1.
pub open spec fn sha1_iv() -> Seq<u32> {
    seq![0x67452301u32, 0xefcdab89, 0x98badcfe, 0x10325476, 0xc3d2e1f0]
}

/// The SHA-1 digest of `msg`.
pub open spec fn sha1_spec(msg: Seq<u8>) -> Seq<u8> {
    md32_digest(sha1_f(), sha1_iv(), msg)
}

/// Compresses the block `input[off..off + 64]` into `h`.
fn sha1_compress_block(h: &mut [u32; 5], input: &[u8], off: usize)
    requires
        off + 64 <= input@.len(),
    ensures
        final(h)@ == sha1_compress(old(h)@, input@.subrange(off as int, off + 64)),
{
    let ghost block = input@.subrange(off as int, off + 64);
    let mut w = [0u32; 80];
    for t in 0..16
        invariant
            off + 64 <= input@.len(),
            block == input@.subrange(off as int, off + 64),
            forall|j: int| 0 <= j < t ==> w@[j] == sha1_schedule(block, j as nat),
    {
        w[t] = load_be_word(input, off, t);
    }
    for t in 16..80
        invariant
            forall|j: int| 0 <= j < t ==> w@[j] == sha1_schedule(block, j as nat),
    {
        w[t] = rotl_exec(w[t - 3] ^ w[t - 8] ^ w[t - 14] ^ w[t - 16], 1);
    }
    let mut a = h[0];
    let mut b = h[1];
    let mut c = h[2];
    let mut d = h[3];
    let mut e = h[4];
    for t in 0..80
        invariant
            forall|j: int| 0 <= j < 80 ==> w@[j] == sha1_schedule(block, j as nat),
            seq![a, b, c, d, e] == sha1_rounds(old(h)@, block, t as nat),
            h@ == old(h)@,
    {
        let (f, k) = if t < 20 {
            ((b & c) | (!b & d), 0x5a827999u32)
        } else if t < 40 {
            (b ^ c ^ d, 0x6ed9eba1u32)
        } else if t < 60 {
            ((b & c) | (b & d) | (c & d), 0x8f1bbcdcu32)
        } else {
            (b ^ c ^ d, 0xca62c1d6u32)
        };
        let temp = wadd(wadd(wadd(wadd(rotl_exec(a, 5), f), e), k), w[t]);
        e = d;
        d = c;
        c = rotl_exec(b, 30);
        b = a;
        a = temp;
    }
    h[0] = wadd(h[0], a);
    h[1] = wadd(h[1], b);
    h[2] = wadd(h[2], c);
    h[3] = wadd(h[3], d);
    h[4] = wadd(h[4], e);
    reveal(sha1_compress);
    assert(h@ =~= sha1_compress(old(h)@, block));
}

/// Compresses each whole 64-byte block of `input` in turn into `context`.
pub fn sha1_block_data_order(context: &mut [u32; 5], input: &[u8])
    requires
        input@.len() >= 64,
    ensures
        final(context)@ == sha1_blocks(old(context)@, input@, input@.len() / 64),
{
    let len = input.len();
    let n = len / 64;
    let mut i: usize = 0;
    while i < n
        invariant
            len == input@.len(),
            n == input@.len() / 64,
            i <= n,
            context@ == sha1_blocks(old(context)@, input@, i as nat),
        decreases n - i,
    {
        assert(64 * i + 64 <= input@.len()) by (nonlinear_arith)
            requires
                i < n,
                n == input@.len() / 64,
        ;
        sha1_compress_block(context, input, 64 * i);
        i = i + 1;
    }
}

const SHA1_CBLOCK: usize = 64;

/// A running SHA-1 computation.
pub struct Sha1Context {
    pub h: [u32; 5],
    pub nl: u32,
    pub nh: u32,
    pub data: [u8; 64],
    pub num: u32,
    /// The bytes consumed so far.
    pub consumed: Ghost<Seq<u8>>,
}

impl Sha1Context {
    /// The state words and pending bytes agree with having consumed `m`.
    pub open spec fn blocks_ok(&self, m: Seq<u8>) -> bool {
        &&& self.data@.len() == 64
        &&& self.num == m.len() % 64
        &&& self.data@.take(self.num as int) == m.skip(m.len() - self.num)
        &&& self.h@ == sha1_blocks(sha1_iv(), m, m.len() / 64)
    }

    /// The fields agree with the bytes consumed so far.
    pub open spec fn inv(&self) -> bool {
        &&& self.blocks_ok(self.consumed@)
        &&& self.nh * 0x1_0000_0000 + self.nl == bit_count(self.consumed@.len())
    }

    pub fn init() -> (s: Self)
        ensures
            s.inv(),
            s.consumed@ == Seq::<u8>::empty(),
    {
        let s = Self {
            h: [0x67452301, 0xefcdab89, 0x98badcfe, 0x10325476, 0xc3d2e1f0],
            nl: 0,
            nh: 0,
            data: [0; SHA1_CBLOCK],
            num: 0,
            consumed: Ghost(Seq::empty()),
        };
        assert(s.h@ =~= sha1_iv());
        assert(s.data@.take(0) =~= s.consumed@.skip(0));
        s
    }
}

/// With bytes pending, adds bytes of `msg` to them: all of `msg` where that
/// does not complete a block, answering `(len, true)`; otherwise as many as
/// complete it, folding the block and clearing the pending bytes, answering
/// that many and `false`.
fn sha1_fill_pending(ctx: &mut Sha1Context, msg: &[u8], len: usize, Ghost(m): Ghost<Seq<u8>>) -> (r: (usize, bool))
    requires
        old(ctx).blocks_ok(m),
        old(ctx).num != 0,
        len == msg@.len(),
    ensures
        r.1 ==> r.0 == len && final(ctx).blocks_ok(m + msg@),
        !r.1 ==> r.0 <= len && final(ctx).num == 0 && final(ctx).blocks_ok(m + msg@.take(r.0 as int)),
        final(ctx).nl == old(ctx).nl,
        final(ctx).nh == old(ctx).nh,
        final(ctx).consumed == old(ctx).consumed,
{
    let ghost x = msg@;
    let n = ctx.num as usize;
    if len > SHA1_CBLOCK || len + n >= SHA1_CBLOCK {
        let ghost data0 = ctx.data@;
        {
            let (_head, tail) = ctx.data.split_at_mut(n);
            ms_memcpy(tail, msg, SHA1_CBLOCK - n);
        }
        proof {
            assert(ctx.data@ =~= data0.take(n as int) + x.take(64 - n));
            lemma_fill_block(sha1_f(), sha1_iv(), ctx.h@, data0, n as nat, m, x, ctx.data@);
        }
        let ghost h0 = ctx.h@;
        sha1_block_data_order(&mut ctx.h, &ctx.data);
        proof {
            assert(ctx.data@.subrange(0, 64) =~= ctx.data@);
            assert(fold_blocks(sha1_f(), h0, ctx.data@, 0) == h0);
        }
        ctx.num = 0;
        ms_memset(&mut ctx.data, 0, SHA1_CBLOCK);
        proof {
            let m2 = m + x.take(64 - n);
            assert(ctx.data@.take(0) =~= m2.skip(m2.len() - 0));
        }
        (SHA1_CBLOCK - n, false)
    } else {
        let ghost data0 = ctx.data@;
        {
            let (_head, tail) = ctx.data.split_at_mut(n);
            ms_memcpy(tail, msg, len);
        }
        proof {
            assert(ctx.data@.take(n + len) =~= data0.take(n as int) + x);
            lemma_append_short(sha1_f(), sha1_iv(), ctx.h@, data0, n as nat, m, x, ctx.data@);
        }
        ctx.num = ctx.num + len as u32;
        (len, true)
    }
}

/// With no bytes pending, folds the whole blocks of `msg` and keeps the
/// rest pending.
fn sha1_absorb(ctx: &mut Sha1Context, msg: &[u8], Ghost(m): Ghost<Seq<u8>>)
    requires
        old(ctx).blocks_ok(m),
        old(ctx).num == 0,
    ensures
        final(ctx).blocks_ok(m + msg@),
        final(ctx).nl == old(ctx).nl,
        final(ctx).nh == old(ctx).nh,
        final(ctx).consumed == old(ctx).consumed,
{
    let ghost x = msg@;
    let mut len = msg.len();
    let mut msg = msg;
    let n = len / SHA1_CBLOCK;
    proof {
        lemma_append_blocks(sha1_f(), sha1_iv(), m, x);
    }
    if n > 0 {
        sha1_block_data_order(&mut ctx.h, msg);
        let k = n * SHA1_CBLOCK;
        msg = &msg[k..len];
        len = len - k;
    }
    proof {
        assert(fold_blocks(sha1_f(), old(ctx).h@, x, 0) == old(ctx).h@);
        assert(ctx.h@ == sha1_blocks(sha1_iv(), m + x, (m + x).len() / 64));
        assert(msg@ =~= x.skip(x.len() - x.len() % 64));
        assert(len == x.len() % 64);
    }
    if len != 0 {
        ctx.num = len as u32;
        ms_memcpy(&mut ctx.data, msg, len);
        assert(ctx.data@.take(len as int) =~= msg@);
    } else {
        assert(ctx.data@.take(0) =~= (m + x).skip((m + x).len() - 0));
    }
}

/// Feeds the first `len` bytes of `msg`, all of it, into `ctx`.
pub fn sha1_update(ctx: &mut Sha1Context, msg: &[u8], len: usize) -> (res: Result<(), ()>)
    requires
        old(ctx).inv(),
        len == msg@.len(),
    ensures
        final(ctx).inv(),
        final(ctx).consumed@ == old(ctx).consumed@ + msg@,
        res is Ok,
{
    let ghost m0 = ctx.consumed@;
    let ghost x = msg@;
    if len == 0 {
        assert(m0 + x =~= m0);
        return Ok(());
    }
    let (l, h) = add_bit_count(ctx.nl, ctx.nh, len, Ghost(m0.len()));
    ctx.nh = h;
    ctx.nl = l;
    let mut start: usize = 0;
    if ctx.num != 0 {
        let (taken, finished) = sha1_fill_pending(ctx, msg, len, Ghost(m0));
        if finished {
            ctx.consumed = Ghost(m0 + x);
            return Ok(());
        }
        start = taken;
    }
    let rest = &msg[start..len];
    proof {
        assert(x.take(start as int) + rest@ =~= x);
        assert(start == 0 ==> m0 + x.take(0) =~= m0);
    }
    sha1_absorb(ctx, rest, Ghost(m0 + x.take(start as int)));
    proof {
        assert(m0 + x.take(start as int) + rest@ =~= m0 + x);
    }
    ctx.consumed = Ghost(m0 + x);
    Ok(())
}


/// Writes the byte `0x80` after the `num` pending bytes; where fewer than
/// eight bytes are left after it, clears them and folds the block. Answers
/// where the bit count's block is to be cleared from.
fn put_end_marker(ctx: &mut Sha1Context) -> (n: usize)
    requires
        old(ctx).num < 64,
    ensures
        old(ctx).num < 56 ==> n == old(ctx).num + 1 && final(ctx).h@ == old(ctx).h@
            && final(ctx).data@.take(n as int) == old(ctx).data@.take(old(ctx).num as int) + seq![0x80u8],
        old(ctx).num >= 56 ==> n == 0 && final(ctx).h@ == sha1_compress(
            old(ctx).h@,
            old(ctx).data@.take(old(ctx).num as int) + seq![0x80u8] + zeros((63 - old(ctx).num) as nat),
        ),
        final(ctx).nl == old(ctx).nl,
        final(ctx).nh == old(ctx).nh,
        final(ctx).num == old(ctx).num,
{
    let ghost data0 = ctx.data@;
    let ghost num0 = ctx.num as nat;
    let mut n = ctx.num as usize;
    ctx.data[n] = 0x80;
    n = n + 1;
    if n > SHA1_CBLOCK - 8 {
        {
            let (_head, tail) = ctx.data.split_at_mut(n);
            ms_memset(tail, 0, SHA1_CBLOCK - n);
        }
        let ghost blk1 = data0.take(num0 as int) + seq![0x80u8] + zeros((63 - num0) as nat);
        assert(ctx.data@ =~= blk1);
        n = 0;
        let ghost h0 = ctx.h@;
        sha1_block_data_order(&mut ctx.h, &ctx.data[0..64]);
        proof {
            assert(ctx.data@.subrange(0, 64) =~= blk1);
            assert(blk1.subrange(0, 64) =~= blk1);
            assert(fold_blocks(sha1_f(), h0, blk1, 0) == h0);
        }
    } else {
        assert(ctx.data@.take(n as int) =~= data0.take(num0 as int) + seq![0x80u8]);
    }
    n
}

/// Pads the consumed message, folds the last blocks and writes the digest
/// to `out`.
pub fn sha1_final(out: &mut [u8], ctx: &mut Sha1Context) -> (res: Result<(), ()>)
    requires
        old(ctx).inv(),
        old(out)@.len() == 20,
    ensures
        res is Ok,
        final(out)@ == sha1_spec(old(ctx).consumed@),
        words_to_be_bytes(final(ctx).h@) == final(out)@,
        final(ctx).data@ == Seq::new(64, |i: int| 0u8),
{
    let ghost m = ctx.consumed@;
    let ghost data0 = ctx.data@;
    let ghost num0 = ctx.num as nat;
    let ghost bits = bit_count(m.len());
    proof {
        assert(ctx.nh == bits / 0x1_0000_0000 && ctx.nl == bits % 0x1_0000_0000) by (nonlinear_arith)
            requires
                ctx.nh * 0x1_0000_0000 + ctx.nl == bits,
                ctx.nl < 0x1_0000_0000,
        ;
        assert(words_to_be_bytes(seq![ctx.nh, ctx.nl]) == length_bytes(m.len()));
    }
    let n = put_end_marker(ctx);
    let ghost data1 = ctx.data@;
    put_length(&mut ctx.data, n, ctx.nh, ctx.nl);
    let ghost h1 = ctx.h@;
    sha1_block_data_order(&mut ctx.h, &ctx.data[0..64]);
    proof {
        let last = ctx.data@;
        assert(ctx.data@.subrange(0, 64) =~= last);
        assert(last.subrange(0, 64) =~= last);
        assert(fold_blocks(sha1_f(), h1, last, 0) == h1);
        if num0 < 56 {
            let blk = data0.take(num0 as int) + seq![0x80u8] + zeros((55 - num0) as nat)
                + length_bytes(m.len());
            assert(last =~= blk);
            lemma_final_one_block(sha1_f(), sha1_iv(), old(ctx).h@, data0, num0, m, blk);
        } else {
            let blk1 = data0.take(num0 as int) + seq![0x80u8] + zeros((63 - num0) as nat);
            let blk2 = zeros(56) + length_bytes(m.len());
            assert(last =~= blk2);
            lemma_final_two_blocks(sha1_f(), sha1_iv(), old(ctx).h@, data0, num0, m, blk1, blk2);
        }
    }
    ms_memset(&mut ctx.data, 0, SHA1_CBLOCK);
    let d = convert_5(&ctx.h);
    ms_memcpy(out, &d, 20);
    assert(out@ =~= d@);
    Ok(())
}


/// Writes the SHA-1 digest of the first `len` bytes of `data`, all of
/// it, to `out`.
fn sha1(data: &[u8], len: usize, out: &mut [u8])
    requires
        len == data@.len(),
        old(out)@.len() == 20,
    ensures
        final(out)@ == sha1_spec(data@),
{
    let mut ctx = Sha1Context::init();
    sha1_update(&mut ctx, data, len).expect("Update");
    assert(Seq::<u8>::empty() + data@ =~= data@);
    sha1_final(out, &mut ctx).expect("Final");
}

/// Writes the SHA-1 digest of `msg` to `output`, which holds 20 bytes.
pub fn sha1_digest(msg: &[u8], output: &mut [u8])
    requires
        old(output)@.len() == 20,
    ensures
        final(output)@ == sha1_spec(msg@),
{
    sha1(msg, msg.len(), output);
}


/// Compressing a run of whole blocks in two pieces is compressing it at
/// once: the state after the first piece is where the second one starts.
pub proof fn law_sha1_blocks_in_pieces(h: Seq<u32>, x: Seq<u8>, y: Seq<u8>)
    requires
        x.len() % 64 == 0,
    ensures
        sha1_blocks(h, x + y, (x + y).len() / 64) == sha1_blocks(sha1_blocks(h, x, x.len() / 64), y, y.len() / 64),
{
    crate::md32::lemma_append_blocks(sha1_f(), h, x, y);
}

} // verus!
