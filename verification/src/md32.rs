//! The framing that SHA-1 and SHA-256 share: a message is cut into 64-byte
//! blocks that a compression function folds into a state of 32-bit words,
//! after padding with a one bit, zeros, and the bit length as a big-endian
//! 64-bit number.
use vstd::prelude::*;
use crate::utils::{words_to_be_bytes, be_byte, ms_memset, store_be};

verus! {

/// The state after compressing, with `f`, the first `n` 64-byte blocks of
/// `msg` into `h`.
pub open spec fn fold_blocks(
    f: spec_fn(Seq<u32>, Seq<u8>) -> Seq<u32>,
    h: Seq<u32>,
    msg: Seq<u8>,
    n: nat,
) -> Seq<u32>
    decreases n,
{
    if n == 0 {
        h
    } else {
        f(fold_blocks(f, h, msg, (n - 1) as nat), msg.subrange(64 * (n - 1), 64 * n as int))
    }
}

/// The message length in bits, modulo 2^64.
pub open spec fn bit_count(len: nat) -> nat {
    (8 * len) % 0x1_0000_0000_0000_0000
}

/// The bit length of a message of `len` bytes as eight big-endian bytes.
pub open spec fn length_bytes(len: nat) -> Seq<u8> {
    let b = bit_count(len);
    words_to_be_bytes(seq![(b / 0x1_0000_0000) as u32, (b % 0x1_0000_0000) as u32])
}

/// How many zero bytes follow the `0x80` byte in the padding of a message
/// of `len` bytes.
pub open spec fn pad_zeros(len: nat) -> nat {
    if len % 64 < 56 {
        (55 - len % 64) as nat
    } else {
        (119 - len % 64) as nat
    }
}

/// `n` zero bytes.
pub open spec fn zeros(n: nat) -> Seq<u8> {
    Seq::new(n, |i: int| 0u8)
}

/// The padded message: `msg`, the byte `0x80`, zeros up to eight bytes short
/// of a multiple of 64, and the bit length.
pub open spec fn md32_pad(msg: Seq<u8>) -> Seq<u8> {
    msg + seq![0x80u8] + zeros(pad_zeros(msg.len())) + length_bytes(msg.len())
}

/// The digest of `msg`: the state, after folding the blocks of the padded
/// message into `iv`, as big-endian bytes.
pub open spec fn md32_digest(
    f: spec_fn(Seq<u32>, Seq<u8>) -> Seq<u32>,
    iv: Seq<u32>,
    msg: Seq<u8>,
) -> Seq<u8> {
    let p = md32_pad(msg);
    words_to_be_bytes(fold_blocks(f, iv, p, p.len() / 64))
}

/// Only the bytes of the blocks folded matter.
pub proof fn lemma_fold_prefix(
    f: spec_fn(Seq<u32>, Seq<u8>) -> Seq<u32>,
    h: Seq<u32>,
    m1: Seq<u8>,
    m2: Seq<u8>,
    n: nat,
)
    requires
        64 * n <= m1.len(),
        64 * n <= m2.len(),
        forall|i: int| 0 <= i < 64 * n ==> m1[i] == m2[i],
    ensures
        fold_blocks(f, h, m1, n) == fold_blocks(f, h, m2, n),
    decreases n,
{
    if n > 0 {
        lemma_fold_prefix(f, h, m1, m2, (n - 1) as nat);
        assert(m1.subrange(64 * (n - 1), 64 * n as int) =~= m2.subrange(64 * (n - 1), 64 * n as int));
    }
}

/// Folding the blocks of `x + y`, where `x` is whole blocks, folds those of
/// `x` and then those of `y`.
pub proof fn lemma_fold_concat(
    f: spec_fn(Seq<u32>, Seq<u8>) -> Seq<u32>,
    h: Seq<u32>,
    x: Seq<u8>,
    y: Seq<u8>,
    nx: nat,
    ny: nat,
)
    requires
        x.len() == 64 * nx,
        64 * ny <= y.len(),
    ensures
        fold_blocks(f, h, x + y, nx + ny) == fold_blocks(f, fold_blocks(f, h, x, nx), y, ny),
    decreases ny,
{
    if ny == 0 {
        lemma_fold_prefix(f, h, x + y, x, nx);
    } else {
        lemma_fold_concat(f, h, x, y, nx, (ny - 1) as nat);
        assert((x + y).subrange(64 * (nx + ny - 1), 64 * (nx + ny) as int) =~= y.subrange(
            64 * (ny - 1),
            64 * ny as int,
        ));
    }
}

proof fn lemma_div_mod_64(len: nat)
    ensures
        len == 64 * (len / 64) + len % 64,
        len % 64 < 64,
{
}

/// Appending fewer bytes than complete a block keeps the whole blocks and
/// adds the bytes to the pending ones.
pub proof fn lemma_append_short(
    f: spec_fn(Seq<u32>, Seq<u8>) -> Seq<u32>,
    iv: Seq<u32>,
    h: Seq<u32>,
    data: Seq<u8>,
    num: nat,
    m: Seq<u8>,
    x: Seq<u8>,
    data2: Seq<u8>,
)
    requires
        data.len() == 64,
        num == m.len() % 64,
        data.take(num as int) == m.skip(m.len() - num),
        h == fold_blocks(f, iv, m, m.len() / 64),
        num + x.len() < 64,
        data2.len() == 64,
        data2.take((num + x.len()) as int) == data.take(num as int) + x,
    ensures
        num + x.len() == (m + x).len() % 64,
        data2.take((num + x.len()) as int) == (m + x).skip((m + x).len() - (num + x.len())),
        h == fold_blocks(f, iv, m + x, (m + x).len() / 64),
{
    let q = m.len() / 64;
    lemma_div_mod_64(m.len());
    assert((m + x).len() == 64 * q + (num + x.len()));
    assert((m + x).len() / 64 == q) by (nonlinear_arith)
        requires
            (m + x).len() == 64 * q + (num + x.len()),
            num + x.len() < 64,
    ;
    assert((m + x).len() % 64 == num + x.len()) by (nonlinear_arith)
        requires
            (m + x).len() == 64 * q + (num + x.len()),
            num + x.len() < 64,
    ;
    assert((m + x).skip((m + x).len() - (num + x.len())) =~= m.skip(m.len() - num) + x);
    lemma_fold_prefix(f, iv, m + x, m, q);
}

/// Filling up the pending bytes to a block, and folding it, gives the state
/// of the message with those bytes appended.
pub proof fn lemma_fill_block(
    f: spec_fn(Seq<u32>, Seq<u8>) -> Seq<u32>,
    iv: Seq<u32>,
    h: Seq<u32>,
    data: Seq<u8>,
    num: nat,
    m: Seq<u8>,
    x: Seq<u8>,
    blk: Seq<u8>,
)
    requires
        data.len() == 64,
        num == m.len() % 64,
        data.take(num as int) == m.skip(m.len() - num),
        h == fold_blocks(f, iv, m, m.len() / 64),
        x.len() >= 64 - num,
        blk == data.take(num as int) + x.take(64 - num),
    ensures
        (m + x.take(64 - num)).len() % 64 == 0,
        f(h, blk) == fold_blocks(f, iv, m + x.take(64 - num), (m + x.take(64 - num)).len() / 64),
{
    let q = m.len() / 64;
    let m2 = m + x.take(64 - num);
    lemma_div_mod_64(m.len());
    assert(m2.len() == 64 * (q + 1));
    assert(m2.len() / 64 == q + 1) by (nonlinear_arith)
        requires
            m2.len() == 64 * (q + 1),
    ;
    assert(m2.len() % 64 == 0) by (nonlinear_arith)
        requires
            m2.len() == 64 * (q + 1),
    ;
    lemma_fold_prefix(f, iv, m2, m, q);
    assert(m2.subrange(64 * q as int, 64 * (q + 1) as int) =~= blk);
}

/// Folding the whole blocks of `x` into the state of a message of whole
/// blocks gives the state of the two together.
pub proof fn lemma_append_blocks(
    f: spec_fn(Seq<u32>, Seq<u8>) -> Seq<u32>,
    iv: Seq<u32>,
    m: Seq<u8>,
    x: Seq<u8>,
)
    requires
        m.len() % 64 == 0,
    ensures
        fold_blocks(f, fold_blocks(f, iv, m, m.len() / 64), x, x.len() / 64) == fold_blocks(
            f,
            iv,
            m + x,
            (m + x).len() / 64,
        ),
        (m + x).len() % 64 == x.len() % 64,
        (m + x).skip((m + x).len() - x.len() % 64) == x.skip(x.len() - x.len() % 64),
{
    let q = m.len() / 64;
    let r = x.len() / 64;
    lemma_div_mod_64(m.len());
    lemma_div_mod_64(x.len());
    assert((m + x).len() == 64 * (q + r) + x.len() % 64);
    assert((m + x).len() / 64 == q + r && (m + x).len() % 64 == x.len() % 64) by (nonlinear_arith)
        requires
            (m + x).len() == 64 * (q + r) + x.len() % 64,
            x.len() % 64 < 64,
    ;
    lemma_fold_concat(f, iv, m, x, q, r);
    assert((m + x).skip((m + x).len() - x.len() % 64) =~= x.skip(x.len() - x.len() % 64));
}

/// With fewer than 56 bytes pending, one last block closes the padded
/// message.
pub proof fn lemma_final_one_block(
    f: spec_fn(Seq<u32>, Seq<u8>) -> Seq<u32>,
    iv: Seq<u32>,
    h: Seq<u32>,
    data: Seq<u8>,
    num: nat,
    m: Seq<u8>,
    blk: Seq<u8>,
)
    requires
        data.len() == 64,
        num == m.len() % 64,
        data.take(num as int) == m.skip(m.len() - num),
        h == fold_blocks(f, iv, m, m.len() / 64),
        num < 56,
        blk == data.take(num as int) + seq![0x80u8] + zeros((55 - num) as nat) + length_bytes(
            m.len(),
        ),
    ensures
        f(h, blk) == fold_blocks(f, iv, md32_pad(m), md32_pad(m).len() / 64),
{
    let q = m.len() / 64;
    lemma_div_mod_64(m.len());
    let p = md32_pad(m);
    let head = m.take(64 * q as int);
    assert(length_bytes(m.len()).len() == 8);
    assert(p =~= head + blk);
    assert(p.len() == 64 * (q + 1));
    assert(p.len() / 64 == q + 1) by (nonlinear_arith)
        requires
            p.len() == 64 * (q + 1),
    ;
    lemma_fold_concat(f, iv, head, blk, q, 1);
    lemma_fold_prefix(f, iv, head, m, q);
    assert(blk.subrange(0, 64) =~= blk);
    assert(fold_blocks(f, h, blk, 0) == h);
    assert(fold_blocks(f, h, blk, 1) == f(h, blk));
}

/// With 56 or more bytes pending, two last blocks close the padded message.
pub proof fn lemma_final_two_blocks(
    f: spec_fn(Seq<u32>, Seq<u8>) -> Seq<u32>,
    iv: Seq<u32>,
    h: Seq<u32>,
    data: Seq<u8>,
    num: nat,
    m: Seq<u8>,
    blk1: Seq<u8>,
    blk2: Seq<u8>,
)
    requires
        data.len() == 64,
        num == m.len() % 64,
        data.take(num as int) == m.skip(m.len() - num),
        h == fold_blocks(f, iv, m, m.len() / 64),
        56 <= num,
        blk1 == data.take(num as int) + seq![0x80u8] + zeros((63 - num) as nat),
        blk2 == zeros(56) + length_bytes(m.len()),
    ensures
        f(f(h, blk1), blk2) == fold_blocks(f, iv, md32_pad(m), md32_pad(m).len() / 64),
{
    let q = m.len() / 64;
    lemma_div_mod_64(m.len());
    let p = md32_pad(m);
    let head = m.take(64 * q as int);
    let tail = blk1 + blk2;
    assert(length_bytes(m.len()).len() == 8);
    assert(p =~= head + tail);
    assert(p.len() == 64 * (q + 2));
    assert(p.len() / 64 == q + 2) by (nonlinear_arith)
        requires
            p.len() == 64 * (q + 2),
    ;
    lemma_fold_concat(f, iv, head, tail, q, 2);
    lemma_fold_prefix(f, iv, head, m, q);
    assert(tail.subrange(0, 64) =~= blk1);
    assert(tail.subrange(64, 128) =~= blk2);
    assert(fold_blocks(f, h, tail, 0) == h);
    assert(fold_blocks(f, h, tail, 1) == f(h, blk1));
    assert(fold_blocks(f, h, tail, 2) == f(f(h, blk1), blk2));
}


/// Adding `len` bytes to the 64-bit bit count held in two words: the low
/// word takes `len << 3` with wrapping, a carry out of it goes to the high
/// word, which also takes `len >> 29`.
pub proof fn lemma_bit_count_add(nl: u32, nh: u32, len: usize, m_len: nat, l: u32, nh1: u32, nh2: u32)
    requires
        nh * 0x1_0000_0000 + nl == bit_count(m_len),
        l == vstd::wrapping::u32_specs::wrapping_add(nl, (len << 3usize) as u32),
        nh1 == (if l < nl { vstd::wrapping::u32_specs::wrapping_add(nh, 1) } else { nh }),
        nh2 == vstd::wrapping::u32_specs::wrapping_add(nh1, (len >> 29usize) as u32),
    ensures
        nh2 * 0x1_0000_0000 + l == bit_count(m_len + len as nat),
{
    let lo = (len << 3usize) as u32;
    let hi = (len >> 29usize) as u32;
    assert(nh2 * 0x1_0000_0000 + l == (nh * 0x1_0000_0000 + nl + 8 * len) % 0x1_0000_0000_0000_0000)
        by (bit_vector)
        requires
            lo == (len << 3usize) as u32,
            hi == (len >> 29usize) as u32,
            l == (if nl + lo > u32::MAX { (nl + lo - 0x1_0000_0000) as u32 } else { (nl + lo) as u32 }),
            nh1 == (if l < nl {
                if nh + 1 > u32::MAX { (nh + 1 - 0x1_0000_0000) as u32 } else { (nh + 1) as u32 }
            } else {
                nh
            }),
            nh2 == (if nh1 + hi > u32::MAX { (nh1 + hi - 0x1_0000_0000) as u32 } else { (nh1 + hi) as u32 }),
    ;
    let x: int = 8 * (m_len as int);
    let y: int = 8 * len;
    let md: int = 0x1_0000_0000_0000_0000;
    vstd::arithmetic::div_mod::lemma_add_mod_noop_right(y, x, md);
}


/// Adds `len` bytes to the bit count held in `nh:nl`.
pub(crate) fn add_bit_count(nl: u32, nh: u32, len: usize, Ghost(m_len): Ghost<nat>) -> (r: (u32, u32))
    requires
        nh * 0x1_0000_0000 + nl == bit_count(m_len),
    ensures
        r.1 * 0x1_0000_0000 + r.0 == bit_count(m_len + len as nat),
{
    let l = nl.wrapping_add((len << 3usize) as u32);
    let mut h = nh;
    if l < nl {
        h = h.wrapping_add(1);
    }
    let ghost h1 = h;
    h = h.wrapping_add((len >> 29usize) as u32);
    proof {
        lemma_bit_count_add(nl, nh, len, m_len, l, h1, h);
    }
    (l, h)
}

/// Clears `data[n..56]` and writes the bit count `nh:nl` big-endian into
/// `data[56..64]`.
pub(crate) fn put_length(data: &mut [u8; 64], n: usize, nh: u32, nl: u32)
    requires
        n <= 56,
    ensures
        final(data)@ == old(data)@.take(n as int) + zeros((56 - n) as nat) + words_to_be_bytes(
            seq![nh, nl],
        ),
{
    {
        let (_head, tail) = data.split_at_mut(n);
        ms_memset(tail, 0, 56 - n);
    }
    let ghost mid = data@;
    store_be(data, 56, nh);
    store_be(data, 60, nl);
    let ghost lb = words_to_be_bytes(seq![nh, nl]);
    assert forall|k: int| 0 <= k < 8 implies #[trigger] lb[k] == data@[56 + k] by {
        if k < 4 {
            assert(k / 4 == 0 && k % 4 == k);
            assert(data@[56 + k] == be_byte(nh, k));
        } else {
            assert(k / 4 == 1 && k % 4 == k - 4);
            assert(data@[60 + (k - 4)] == be_byte(nl, k - 4));
        }
    }
    assert(data@ =~= old(data)@.take(n as int) + zeros((56 - n) as nat) + lb);
}

} // verus!
