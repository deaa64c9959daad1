//! AES key schedules and the counter increments of counter mode.
use vstd::prelude::*;

verus! {

/// An expanded AES key: up to 15 round keys of four words, and the number of
/// rounds.
#[derive(Debug)]
pub struct AesKey {
    rd_key: [u32; 60],
    rounds: u32,
}

/// The round-key words and the round count of a key.
pub struct AesKeyView {
    pub rd_key: Seq<u32>,
    pub rounds: u32,
}

impl View for AesKey {
    type V = AesKeyView;

    closed spec fn view(&self) -> AesKeyView {
        AesKeyView { rd_key: self.rd_key@, rounds: self.rounds }
    }
}

/// The little-endian word stored at `bytes[i..i + 4]`.
pub open spec fn le_word(bytes: Seq<u8>, i: int) -> u32 {
    (bytes[i] as int + 0x100 * (bytes[i + 1] as int) + 0x1_0000 * (bytes[i + 2] as int)
        + 0x100_0000 * (bytes[i + 3] as int)) as u32
}

fn read_le_u32(bytes: &[u8], i: usize) -> (r: u32)
    requires
        i + 4 <= bytes@.len(),
    ensures
        r == le_word(bytes@, i as int),
{
    let b0 = bytes[i] as u32;
    let b1 = bytes[i + 1] as u32;
    let b2 = bytes[i + 2] as u32;
    let b3 = bytes[i + 3] as u32;
    let r = b0 | (b1 << 8u32) | (b2 << 16u32) | (b3 << 24u32);
    assert(r == b0 + 0x100 * b1 + 0x1_0000 * b2 + 0x100_0000 * b3) by (bit_vector)
        requires
            b0 < 256,
            b1 < 256,
            b2 < 256,
            b3 < 256,
            r == b0 | (b1 << 8u32) | (b2 << 16u32) | (b3 << 24u32),
    ;
    r
}

impl AesKey {
    /// A fixed key: every round-key word `0x10`, ten rounds.
    pub fn new() -> (k: Self)
        ensures
            k@.rd_key == Seq::new(60, |i: int| 0x10u32),
            k@.rounds == 10,
    {
        let k = Self { rd_key: [0x10; 60], rounds: 10 };
        assert(k@.rd_key =~= Seq::new(60, |i: int| 0x10u32));
        k
    }

    /// The round-key words.
    pub fn rd_key(&self) -> (r: [u32; 60])
        ensures
            r@ == self@.rd_key,
    {
        self.rd_key
    }

    /// The number of rounds.
    pub fn rounds(&self) -> (r: u32)
        ensures
            r == self@.rounds,
    {
        self.rounds
    }

    /// A key read from its in-memory layout: 60 little-endian round-key
    /// words, then the little-endian round count at byte 240.
    pub fn new_from_bytes(bytes: &[u8]) -> (k: Self)
        requires
            bytes@.len() >= 244,
        ensures
            k@.rd_key == Seq::new(60, |j: int| le_word(bytes@, 4 * j)),
            k@.rounds == le_word(bytes@, 240),
    {
        let mut i: usize = 0;
        let mut rd_key: [u32; 60] = [0; 60];
        let rounds = read_le_u32(bytes, 240);
        for j in 0..60
            invariant
                i == 4 * j,
                bytes@.len() >= 244,
                forall|m: int| 0 <= m < j ==> #[trigger] rd_key@[m] == le_word(bytes@, 4 * m),
        {
            rd_key[j] = read_le_u32(bytes, i);
            i = i + 4;
        }
        let k = Self { rd_key, rounds };
        assert(k@.rd_key =~= Seq::new(60, |j: int| le_word(bytes@, 4 * j)));
        k
    }
}

/// The big-endian number that the bytes `s` spell.
pub open spec fn be_value(s: Seq<u8>) -> nat
    decreases s.len(),
{
    if s.len() == 0 {
        0
    } else {
        be_value(s.drop_last()) * 256 + s.last() as nat
    }
}

pub open spec fn pow256(k: nat) -> nat
    decreases k,
{
    if k == 0 {
        1
    } else {
        256 * pow256((k - 1) as nat)
    }
}

proof fn lemma_be_value_bound(s: Seq<u8>)
    ensures
        be_value(s) < pow256(s.len()),
    decreases s.len(),
{
    if s.len() > 0 {
        lemma_be_value_bound(s.drop_last());
        let v = be_value(s.drop_last());
        let p = pow256(s.drop_last().len());
        assert(v * 256 + 255 < p * 256) by (nonlinear_arith)
            requires
                v < p,
        ;
    }
}

/// Putting a byte in front multiplies its weight by the length of the rest.
proof fn lemma_be_value_prepend(b: u8, t: Seq<u8>)
    ensures
        be_value(seq![b] + t) == b * pow256(t.len()) + be_value(t),
    decreases t.len(),
{
    if t.len() == 0 {
        assert(seq![b] + t =~= seq![b]);
        assert(seq![b].drop_last() =~= Seq::<u8>::empty());
        assert(be_value(Seq::<u8>::empty()) == 0);
        assert(pow256(0) == 1);
    } else {
        let u = t.drop_last();
        lemma_be_value_prepend(b, u);
        assert((seq![b] + t).drop_last() =~= seq![b] + u);
        assert((seq![b] + t).last() == t.last());
        let p = pow256(u.len());
        assert(pow256(t.len()) == 256 * p);
        assert(be_value(seq![b] + t) == be_value(seq![b] + u) * 256 + t.last());
        assert(be_value(t) == be_value(u) * 256 + t.last());
        assert((b * p + be_value(u)) * 256 == b * (256 * p) + be_value(u) * 256)
            by (nonlinear_arith);
    }
}

/// Adds one to the big-endian number in the first eleven bytes of
/// `counter`, wrapping at 2^88.
fn ctr_inc_low88(counter: &mut [u8])
    requires
        old(counter)@.len() >= 11,
    ensures
        final(counter)@.len() == old(counter)@.len(),
        be_value(final(counter)@.take(11)) == (be_value(old(counter)@.take(11)) + 1) % pow256(11),
        final(counter)@.skip(11) == old(counter)@.skip(11),
{
    let ghost orig = counter@;
    let mut c: u32 = 1;
    let mut n: usize = 11;
    // after handling byte n, the low bytes n..11 hold the sum minus the carry
    proof {
        assert(counter@.take(11).skip(11) =~= Seq::<u8>::empty());
        assert(orig.take(11).skip(11) =~= Seq::<u8>::empty());
    }
    while n > 0
        invariant
            0 <= n <= 11,
            counter@.len() == orig.len(),
            orig.len() >= 11,
            c <= 1,
            forall|k: int| 0 <= k < n ==> counter@[k] == orig[k],
            forall|k: int| 11 <= k < orig.len() ==> counter@[k] == orig[k],
            be_value(counter@.take(11).skip(n as int)) + c * pow256((11 - n) as nat) == be_value(
                orig.take(11).skip(n as int),
            ) + 1,
        decreases n,
    {
        let i = n - 1;
        let ghost before = counter@;
        let ghost c0 = c;
        c = c + (counter[i] as u32);
        let ghost sum = c;
        let byte: u8 = (c & 0xff) as u8;
        let carry: u32 = c >> 8u32;
        assert(sum == byte + 256 * carry && carry <= 1) by (bit_vector)
            requires
                byte == (sum & 0xff) as u8,
                carry == sum >> 8u32,
                sum < 512,
        ;
        counter[i] = byte;
        c = carry;
        proof {
            let k = (11 - n) as nat;
            let p = pow256(k);
            let new_tail = counter@.take(11).skip(i as int);
            let old_tail = orig.take(11).skip(i as int);
            assert(new_tail =~= seq![byte] + before.take(11).skip(n as int));
            assert(old_tail =~= seq![orig[i as int]] + orig.take(11).skip(n as int));
            lemma_be_value_prepend(byte, before.take(11).skip(n as int));
            lemma_be_value_prepend(orig[i as int], orig.take(11).skip(n as int));
            assert(pow256(k + 1) == 256 * p);
            assert(sum == c0 + orig[i as int]);
            assert(byte * p + carry * (256 * p) == sum * p) by (nonlinear_arith)
                requires
                    sum == byte + 256 * carry,
            ;
            assert(sum * p == c0 * p + orig[i as int] * p) by (nonlinear_arith)
                requires
                    sum == c0 + orig[i as int],
            ;
        }
        n = i;
    }
    proof {
        assert(counter@.take(11).skip(0) =~= counter@.take(11));
        assert(orig.take(11).skip(0) =~= orig.take(11));
        lemma_be_value_bound(counter@.take(11));
        lemma_be_value_bound(orig.take(11));
        assert(counter@.skip(11) =~= orig.skip(11));
        reveal_with_fuel(pow256, 12);
        assert(pow256(11) == 0x1_0000_0000_0000_0000_0000_00nat);
    }
}

/// Adds one to the counter block of 96-bit counter mode.
pub fn ctr96_inc(counter: &mut [u8])
    requires
        old(counter)@.len() >= 11,
    ensures
        final(counter)@.len() == old(counter)@.len(),
        be_value(final(counter)@.take(11)) == (be_value(old(counter)@.take(11)) + 1) % pow256(11),
        final(counter)@.skip(11) == old(counter)@.skip(11),
{
    ctr_inc_low88(counter)
}

/// Adds one to the counter block of 128-bit counter mode.
pub fn ctr128_inc(counter: &mut [u8])
    requires
        old(counter)@.len() >= 11,
    ensures
        final(counter)@.len() == old(counter)@.len(),
        be_value(final(counter)@.take(11)) == (be_value(old(counter)@.take(11)) + 1) % pow256(11),
        final(counter)@.skip(11) == old(counter)@.skip(11),
{
    ctr_inc_low88(counter)
}


/// The AES S-box.
pub const AES_SBOX: [u8; 256] = [
    0x63, 0x7c, 0x77, 0x7b, 0xf2, 0x6b, 0x6f, 0xc5, 0x30, 0x01, 0x67, 0x2b, 0xfe, 0xd7, 0xab, 0x76,
    0xca, 0x82, 0xc9, 0x7d, 0xfa, 0x59, 0x47, 0xf0, 0xad, 0xd4, 0xa2, 0xaf, 0x9c, 0xa4, 0x72, 0xc0,
    0xb7, 0xfd, 0x93, 0x26, 0x36, 0x3f, 0xf7, 0xcc, 0x34, 0xa5, 0xe5, 0xf1, 0x71, 0xd8, 0x31, 0x15,
    0x04, 0xc7, 0x23, 0xc3, 0x18, 0x96, 0x05, 0x9a, 0x07, 0x12, 0x80, 0xe2, 0xeb, 0x27, 0xb2, 0x75,
    0x09, 0x83, 0x2c, 0x1a, 0x1b, 0x6e, 0x5a, 0xa0, 0x52, 0x3b, 0xd6, 0xb3, 0x29, 0xe3, 0x2f, 0x84,
    0x53, 0xd1, 0x00, 0xed, 0x20, 0xfc, 0xb1, 0x5b, 0x6a, 0xcb, 0xbe, 0x39, 0x4a, 0x4c, 0x58, 0xcf,
    0xd0, 0xef, 0xaa, 0xfb, 0x43, 0x4d, 0x33, 0x85, 0x45, 0xf9, 0x02, 0x7f, 0x50, 0x3c, 0x9f, 0xa8,
    0x51, 0xa3, 0x40, 0x8f, 0x92, 0x9d, 0x38, 0xf5, 0xbc, 0xb6, 0xda, 0x21, 0x10, 0xff, 0xf3, 0xd2,
    0xcd, 0x0c, 0x13, 0xec, 0x5f, 0x97, 0x44, 0x17, 0xc4, 0xa7, 0x7e, 0x3d, 0x64, 0x5d, 0x19, 0x73,
    0x60, 0x81, 0x4f, 0xdc, 0x22, 0x2a, 0x90, 0x88, 0x46, 0xee, 0xb8, 0x14, 0xde, 0x5e, 0x0b, 0xdb,
    0xe0, 0x32, 0x3a, 0x0a, 0x49, 0x06, 0x24, 0x5c, 0xc2, 0xd3, 0xac, 0x62, 0x91, 0x95, 0xe4, 0x79,
    0xe7, 0xc8, 0x37, 0x6d, 0x8d, 0xd5, 0x4e, 0xa9, 0x6c, 0x56, 0xf4, 0xea, 0x65, 0x7a, 0xae, 0x08,
    0xba, 0x78, 0x25, 0x2e, 0x1c, 0xa6, 0xb4, 0xc6, 0xe8, 0xdd, 0x74, 0x1f, 0x4b, 0xbd, 0x8b, 0x8a,
    0x70, 0x3e, 0xb5, 0x66, 0x48, 0x03, 0xf6, 0x0e, 0x61, 0x35, 0x57, 0xb9, 0x86, 0xc1, 0x1d, 0x9e,
    0xe1, 0xf8, 0x98, 0x11, 0x69, 0xd9, 0x8e, 0x94, 0x9b, 0x1e, 0x87, 0xe9, 0xce, 0x55, 0x28, 0xdf,
    0x8c, 0xa1, 0x89, 0x0d, 0xbf, 0xe6, 0x42, 0x68, 0x41, 0x99, 0x2d, 0x0f, 0xb0, 0x54, 0xbb, 0x16,
];

/// Where byte `i` of the state comes from under ShiftRows: the state is
/// four columns of four bytes, and row `r` turns left by `r`.
pub open spec fn shift_src(i: int) -> int {
    4 * ((i / 4 + i % 4) % 4) + i % 4
}

/// SubBytes, then ShiftRows.
pub open spec fn sub_shift(s: Seq<u8>) -> Seq<u8> {
    Seq::new(16, |i: int| AES_SBOX@[s[shift_src(i)] as int])
}

/// Multiplication by `x` in GF(2^8).
pub open spec fn xtime(b: u8) -> u8 {
    if b & 0x80u8 == 0 {
        (b << 1u8) as u8
    } else {
        ((b << 1u8) ^ 0x1bu8) as u8
    }
}

/// Byte `r` of column `c` after MixColumns.
pub open spec fn mix_byte(s: Seq<u8>, c: int, r: int) -> u8 {
    let a0 = s[4 * c];
    let a1 = s[4 * c + 1];
    let a2 = s[4 * c + 2];
    let a3 = s[4 * c + 3];
    if r == 0 {
        xtime(a0) ^ (xtime(a1) ^ a1) ^ a2 ^ a3
    } else if r == 1 {
        a0 ^ xtime(a1) ^ (xtime(a2) ^ a2) ^ a3
    } else if r == 2 {
        a0 ^ a1 ^ xtime(a2) ^ (xtime(a3) ^ a3)
    } else {
        (xtime(a0) ^ a0) ^ a1 ^ a2 ^ xtime(a3)
    }
}

/// MixColumns.
pub open spec fn mix_columns(s: Seq<u8>) -> Seq<u8> {
    Seq::new(16, |i: int| mix_byte(s, i / 4, i % 4))
}

/// AddRoundKey.
pub open spec fn add_round_key(s: Seq<u8>, k: Seq<u8>) -> Seq<u8> {
    Seq::new(16, |i: int| s[i] ^ k[i])
}

/// Byte `k` of the word `w` stored little-endian.
pub open spec fn le_byte(w: u32, k: int) -> u8 {
    (w >> (8 * k) as u32) as u8
}

/// The round key `r`: the sixteen bytes that the words `4 * r .. 4 * r + 4`
/// of `rd` occupy in memory.
pub open spec fn round_key(rd: Seq<u32>, r: int) -> Seq<u8> {
    Seq::new(16, |j: int| le_byte(rd[4 * r + j / 4], j % 4))
}

/// The state after the initial key addition and `r` full rounds.
pub open spec fn aes_rounds(rd: Seq<u32>, block: Seq<u8>, r: nat) -> Seq<u8>
    decreases r,
{
    if r == 0 {
        add_round_key(block, round_key(rd, 0))
    } else {
        add_round_key(mix_columns(sub_shift(aes_rounds(rd, block, (r - 1) as nat))), round_key(rd, r as int))
    }
}

/// AES encryption of `block` with `rounds` rounds and the round keys `rd`.
pub open spec fn aes_encrypt(rd: Seq<u32>, rounds: nat, block: Seq<u8>) -> Seq<u8> {
    add_round_key(sub_shift(aes_rounds(rd, block, (rounds - 1) as nat)), round_key(rd, rounds as int))
}

/// The counter block `j` steps after `ivec`: its last four bytes are a
/// big-endian counter that wraps at 2^32.
pub open spec fn ctr32_block(ivec: Seq<u8>, j: nat) -> Seq<u8> {
    let c = ((be_value(ivec.subrange(12, 16)) + j) % 0x1_0000_0000) as u32;
    ivec.subrange(0, 12) + crate::utils::words_to_be_bytes(seq![c])
}

fn xtime_exec(b: u8) -> (r: u8)
    ensures
        r == xtime(b),
{
    if b & 0x80 == 0 {
        b << 1u8
    } else {
        (b << 1u8) ^ 0x1b
    }
}

fn sub_shift_exec(s: &[u8; 16]) -> (r: [u8; 16])
    ensures
        r@ == sub_shift(s@),
{
    let mut r = [0u8; 16];
    for i in 0..16
        invariant
            forall|k: int| 0 <= k < i ==> r@[k] == AES_SBOX@[s@[shift_src(k)] as int],
    {
        let src = 4 * ((i / 4 + i % 4) % 4) + i % 4;
        r[i] = AES_SBOX[s[src] as usize];
    }
    assert(r@ =~= sub_shift(s@));
    r
}

fn mix_columns_exec(s: &[u8; 16]) -> (r: [u8; 16])
    ensures
        r@ == mix_columns(s@),
{
    let mut r = [0u8; 16];
    for c in 0..4
        invariant
            forall|k: int| 0 <= k < 4 * c ==> r@[k] == mix_byte(s@, k / 4, k % 4),
    {
        let a0 = s[4 * c];
        let a1 = s[4 * c + 1];
        let a2 = s[4 * c + 2];
        let a3 = s[4 * c + 3];
        let x0 = xtime_exec(a0);
        let x1 = xtime_exec(a1);
        let x2 = xtime_exec(a2);
        let x3 = xtime_exec(a3);
        r[4 * c] = x0 ^ (x1 ^ a1) ^ a2 ^ a3;
        r[4 * c + 1] = a0 ^ x1 ^ (x2 ^ a2) ^ a3;
        r[4 * c + 2] = a0 ^ a1 ^ x2 ^ (x3 ^ a3);
        r[4 * c + 3] = (x0 ^ a0) ^ a1 ^ a2 ^ x3;
        assert forall|k: int| 4 * c <= k < 4 * c + 4 implies r@[k] == mix_byte(s@, k / 4, k % 4) by {
            assert(k / 4 == c as int);
            assert(k % 4 == k - 4 * c);
        }
    }
    assert(r@ =~= mix_columns(s@));
    r
}

fn round_key_exec(rd: &[u32; 60], r: usize) -> (k: [u8; 16])
    requires
        r <= 14,
    ensures
        k@ == round_key(rd@, r as int),
{
    let mut k = [0u8; 16];
    for j in 0..16
        invariant
            r <= 14,
            forall|m: int| 0 <= m < j ==> k@[m] == le_byte(rd@[4 * r + m / 4], m % 4),
    {
        let w = rd[4 * r + j / 4];
        k[j] = (w >> (8 * (j % 4)) as u32) as u8;
    }
    assert(k@ =~= round_key(rd@, r as int));
    k
}

fn add_round_key_exec(s: &[u8; 16], k: &[u8; 16]) -> (r: [u8; 16])
    ensures
        r@ == add_round_key(s@, k@),
{
    let mut r = [0u8; 16];
    for i in 0..16
        invariant
            forall|m: int| 0 <= m < i ==> r@[m] == s@[m] ^ k@[m],
    {
        r[i] = s[i] ^ k[i];
    }
    assert(r@ =~= add_round_key(s@, k@));
    r
}

/// Encrypts one block with the round keys `rd` and `rounds` rounds.
fn aes_encrypt_block(rd: &[u32; 60], rounds: u32, block: &[u8; 16]) -> (out: [u8; 16])
    requires
        10 <= rounds <= 14,
    ensures
        out@ == aes_encrypt(rd@, rounds as nat, block@),
{
    let k0 = round_key_exec(rd, 0);
    let mut s = add_round_key_exec(block, &k0);
    let mut r: usize = 1;
    while r < rounds as usize
        invariant
            1 <= r <= rounds,
            rounds <= 14,
            s@ == aes_rounds(rd@, block@, (r - 1) as nat),
        decreases rounds - r,
    {
        let t = sub_shift_exec(&s);
        let m = mix_columns_exec(&t);
        let k = round_key_exec(rd, r);
        s = add_round_key_exec(&m, &k);
        r = r + 1;
    }
    let t = sub_shift_exec(&s);
    let k = round_key_exec(rd, rounds as usize);
    add_round_key_exec(&t, &k)
}



/// `output` is `input` with each whole 16-byte block combined by XOR with
/// the encryption of its counter block, counting from `ivec`; its bytes
/// after the last whole block are those of `prior`.
pub open spec fn ctr32_encrypted(
    rd: Seq<u32>,
    rounds: nat,
    ivec: Seq<u8>,
    input: Seq<u8>,
    prior: Seq<u8>,
    output: Seq<u8>,
) -> bool {
    &&& output.len() == input.len()
    &&& forall|j: int, t: int|
        0 <= j < input.len() / 16 && 0 <= t < 16 ==> #[trigger] output[16 * j + t] == input[16 * j + t]
            ^ aes_encrypt(rd, rounds, ctr32_block(ivec, j as nat))[t]
    &&& forall|k: int| 16 * (input.len() / 16) <= k < input.len() ==> #[trigger] output[k] == prior[k]
}

/// Counter mode undoes itself: encrypting the encryption of a message
/// under the same key and counter gives the message back, block for block.
pub proof fn law_ctr32_twice_restores(
    rd: Seq<u32>,
    rounds: nat,
    ivec: Seq<u8>,
    input: Seq<u8>,
    prior1: Seq<u8>,
    mid: Seq<u8>,
    prior2: Seq<u8>,
    output: Seq<u8>,
)
    requires
        ctr32_encrypted(rd, rounds, ivec, input, prior1, mid),
        ctr32_encrypted(rd, rounds, ivec, mid, prior2, output),
    ensures
        forall|k: int| 0 <= k < 16 * (input.len() / 16) ==> #[trigger] output[k] == input[k],
{
    assert forall|k: int| 0 <= k < 16 * (input.len() / 16) implies #[trigger] output[k] == input[k] by {
        let j = k / 16;
        let t = k % 16;
        assert(k == 16 * j + t && 0 <= j < input.len() / 16 && 0 <= t < 16) by (nonlinear_arith)
            requires
                0 <= k < 16 * (input.len() / 16),
                j == k / 16,
                t == k % 16,
        ;
        let ks = aes_encrypt(rd, rounds, ctr32_block(ivec, j as nat))[t];
        let a = input[16 * j + t];
        let m = mid[16 * j + t];
        assert(m == a ^ ks);
        assert(output[16 * j + t] == m ^ ks);
        assert((a ^ ks) ^ ks == a) by (bit_vector);
    }
}

/// The big-endian counter in the last four bytes of `ivec`.
fn read_ctr32(ivec: &[u8; 16]) -> (r: u32)
    ensures
        r == be_value(ivec@.subrange(12, 16)),
{
    let b0 = ivec[12] as u32;
    let b1 = ivec[13] as u32;
    let b2 = ivec[14] as u32;
    let b3 = ivec[15] as u32;
    let r = (b0 << 24u32) | (b1 << 16u32) | (b2 << 8u32) | b3;
    assert(r == ((b0 * 256 + b1) * 256 + b2) * 256 + b3) by (bit_vector)
        requires
            b0 < 256,
            b1 < 256,
            b2 < 256,
            b3 < 256,
            r == (b0 << 24u32) | (b1 << 16u32) | (b2 << 8u32) | b3,
    ;
    proof {
        let s = ivec@.subrange(12, 16);
        reveal_with_fuel(be_value, 5);
        assert(s.drop_last().drop_last().drop_last().drop_last() =~= Seq::<u8>::empty());
        assert(s.drop_last().drop_last().drop_last() =~= seq![s[0]]);
        assert(s.drop_last().drop_last() =~= seq![s[0], s[1]]);
        assert(s.drop_last() =~= seq![s[0], s[1], s[2]]);
    }
    r
}

/// Encrypts, in counter mode, each whole 16-byte block of `input` into
/// `output`: block `j` is combined by XOR with the encryption of the counter
/// block `j` steps after `ivec`, which is left as it was. Bytes after the
/// last whole block are left as they were.
pub fn aes_hw_ctr32_encrypt_blocks(
    input: &[u8],
    output: &mut [u8],
    keys: &([u32; 60], u32),
    ivec: &mut [u8; 16],
)
    requires
        input@.len() >= 16,
        old(output)@.len() == input@.len(),
        keys.1 == 10 || keys.1 == 12 || keys.1 == 14,
    ensures
        final(ivec)@ == old(ivec)@,
        ctr32_encrypted(keys.0@, keys.1 as nat, old(ivec)@, input@, old(output)@, final(output)@),
{
    let len = input.len();
    let n = len / 16;
    let ctr = read_ctr32(ivec);
    let mut c = ctr;
    let mut j: usize = 0;
    while j < n
        invariant
            len == input@.len(),
            n == len / 16,
            j <= n,
            output@.len() == len,
            keys.1 == 10 || keys.1 == 12 || keys.1 == 14,
            ctr == be_value(ivec@.subrange(12, 16)),
            c == (ctr + j) % 0x1_0000_0000,
            forall|b: int, t: int|
                0 <= b < j && 0 <= t < 16 ==> #[trigger] output@[16 * b + t] == input@[16 * b + t]
                    ^ aes_encrypt(keys.0@, keys.1 as nat, ctr32_block(ivec@, b as nat))[t],
            forall|k: int| 16 * j <= k < len ==> #[trigger] output@[k] == old(output)@[k],
        decreases n - j,
    {
        let mut block = *ivec;
        crate::utils::store_be(&mut block, 12, c);
        proof {
            let want = ctr32_block(ivec@, j as nat);
            assert forall|m: int| 0 <= m < 16 implies block@[m] == want[m] by {
                if m >= 12 {
                    assert(block@[12 + (m - 12)] == crate::utils::be_byte(c, m - 12));
                }
            }
            assert(block@ =~= want);
        }
        let ks = aes_encrypt_block(&keys.0, keys.1, &block);
        assert(16 * j + 16 <= len) by (nonlinear_arith)
            requires
                j < n,
                n == len / 16,
        ;
        let ghost before = output@;
        for t in 0..16
            invariant
                16 * j + 16 <= len,
                len == input@.len(),
                output@.len() == len,
                before.len() == len,
                forall|m: int| 0 <= m < t ==> #[trigger] output@[16 * j + m] == input@[16 * j + m] ^ ks@[m],
                forall|k: int| 0 <= k < len && !(16 * j <= k < 16 * j + t) ==> #[trigger] output@[k] == before[k],
        {
            output[16 * j + t] = input[16 * j + t] ^ ks[t];
        }
        proof {
            assert forall|b: int, t: int|
                0 <= b < j + 1 && 0 <= t < 16 implies #[trigger] output@[16 * b + t] == input@[16 * b + t]
                    ^ aes_encrypt(keys.0@, keys.1 as nat, ctr32_block(ivec@, b as nat))[t] by {
                if b < j {
                    assert(16 * b + t < 16 * j) by (nonlinear_arith)
                        requires
                            b < j,
                            t < 16,
                    ;
                    assert(output@[16 * b + t] == before[16 * b + t]);
                } else {
                    assert(b == j);
                }
            }
        }
        c = c.wrapping_add(1);
        j = j + 1;
    }
}


/// `v` as `n` big-endian bytes (modulo 256 to the `n`).
pub open spec fn be_bytes_n(v: nat, n: nat) -> Seq<u8>
    decreases n,
{
    if n == 0 {
        Seq::empty()
    } else {
        be_bytes_n(v / 256, (n - 1) as nat).push((v % 256) as u8)
    }
}

/// Bytes are the big-endian bytes of the number they spell.
proof fn lemma_be_bytes_of_value(s: Seq<u8>)
    ensures
        be_bytes_n(be_value(s), s.len()) == s,
    decreases s.len(),
{
    if s.len() > 0 {
        let d = s.drop_last();
        lemma_be_bytes_of_value(d);
        let v = be_value(d);
        let l = s.last() as nat;
        assert((v * 256 + l) / 256 == v && (v * 256 + l) % 256 == l) by (nonlinear_arith)
            requires
                l < 256,
        ;
        assert(be_bytes_n(be_value(s), s.len()) =~= d.push(s.last()));
        assert(d.push(s.last()) =~= s);
    }
}

/// The counter block `iv` with its last four bytes set to the big-endian
/// counter `c`.
pub open spec fn set_low(iv: Seq<u8>, c: u32) -> Seq<u8> {
    iv.subrange(0, 12) + crate::utils::words_to_be_bytes(seq![c])
}

/// The counter block `iv` after `ctr96_inc`: its first eleven bytes, as a
/// big-endian number, one more (modulo 2^88).
pub open spec fn inc88(iv: Seq<u8>) -> Seq<u8> {
    be_bytes_n(((be_value(iv.take(11)) + 1) % pow256(11)) as nat, 11) + iv.skip(11)
}

/// How many of `b` whole blocks counter mode encrypts from the counter
/// block `iv` before its 32-bit counter wraps (all of them where it does
/// not), and the counter after them.
pub open spec fn ctr_chunk(iv: Seq<u8>, b: nat) -> (nat, nat) {
    chunk_of(be_value(iv.subrange(12, 16)), b)
}

/// How many of `b` whole blocks go before the 32-bit counter `c` wraps
/// (all of them where it does not), and the counter after them.
pub open spec fn chunk_of(c: nat, b: nat) -> (nat, nat) {
    let bt = b % 0x1_0000_0000;
    let s = (c + bt) % 0x1_0000_0000;
    if s < bt {
        ((b - s) as nat, 0)
    } else {
        (b, s)
    }
}

/// The counter blocks with which `crypto_ctr128_encrypt_ctr32` encrypts
/// `b` whole blocks from the counter block `iv`: the 32-bit counter in its
/// last four bytes counts up; where it wraps, the first eleven bytes count
/// up by one and the 32-bit counter goes on from zero.
pub open spec fn ctr_stream(iv: Seq<u8>, b: nat) -> Seq<Seq<u8>>
    decreases b,
{
    if b == 0 {
        Seq::empty()
    } else {
        let (first, c) = ctr_chunk(iv, b);
        let chunk = Seq::new(first, |j: int| ctr32_block(iv, j as nat));
        if first < b {
            chunk + ctr_stream(inc88(set_low(iv, 0)), (b - first) as nat)
        } else {
            chunk
        }
    }
}

/// The counter block after `crypto_ctr128_encrypt_ctr32` has encrypted
/// `b` whole blocks from `iv`.
pub open spec fn ctr_final(iv: Seq<u8>, b: nat) -> Seq<u8>
    decreases b,
{
    if b == 0 {
        iv
    } else {
        let (first, c) = ctr_chunk(iv, b);
        if first < b {
            ctr_final(inc88(set_low(iv, 0)), (b - first) as nat)
        } else {
            let v = set_low(iv, c as u32);
            if c == 0 {
                inc88(v)
            } else {
                v
            }
        }
    }
}

/// How many bytes the keystream left in the block buffer covers: from
/// position `n` to the end of the block, at most `len`.
pub open spec fn prefix_len(n: nat, len: nat) -> nat {
    if n == 0 || len == 0 {
        0
    } else if len < 16 - n {
        len
    } else {
        (16 - n) as nat
    }
}

/// What counter mode leaves behind after encrypting `len` bytes of `input`
/// into `out0` (giving `out`) from the counter block `iv0` (giving `iv`) and
/// keystream position `num0` (giving `num`): first the rest of the
/// keystream block in `buf0` from position `num0`, then whole blocks, each
/// combined by XOR with the encryption of its counter block (see
/// `ctr_stream`), after which `iv` is the next counter block (see
/// `ctr_final`). The block buffer is left as it was.
#[verifier::opaque]
pub open spec fn ctr_mode_encrypted(
    input: Seq<u8>,
    len: nat,
    rd: Seq<u32>,
    rounds: nat,
    out0: Seq<u8>,
    out: Seq<u8>,
    iv0: Seq<u8>,
    iv: Seq<u8>,
    buf0: Seq<u8>,
    buf: Seq<u8>,
    num0: u32,
    num: u32,
) -> bool {
    let p = prefix_len(num0 as nat, len);
    let b = ((len - p) / 16) as nat;
    let stream = ctr_stream(iv0, b);
    &&& out.len() == out0.len()
    &&& forall|k: int| 0 <= k < p ==> #[trigger] out[k] == input[k] ^ buf0[num0 + k]
    &&& forall|j: int, t: int|
        0 <= j < b && 0 <= t < 16 ==> #[trigger] out[p + 16 * j + t] == input[p + 16 * j + t] ^ aes_encrypt(
            rd,
            rounds,
            stream[j],
        )[t]
    &&& forall|k: int| len <= k < out0.len() ==> #[trigger] out[k] == out0[k]
    &&& iv == ctr_final(iv0, b)
    &&& buf == buf0
    &&& num == if num0 == 0 || len == 0 {
        num0
    } else {
        ((num0 + p) % 16) as u32
    }
}

/// The block cipher a counter-mode encryption uses.
#[derive(Debug, Clone, Copy, PartialEq, Eq, Structural)]
pub enum AesFunc {
    AesHwCtr32EncryptBlocks,
    VpaesCtr32EncryptBlocks,
}

/// Counter block `j` of 128-bit counter mode from `iv`: `iv` after `j`
/// calls of `ctr128_inc`.
pub open spec fn ctr128_block(iv: Seq<u8>, j: nat) -> Seq<u8>
    decreases j,
{
    if j == 0 {
        iv
    } else {
        inc88(ctr128_block(iv, (j - 1) as nat))
    }
}

/// What `crypto_ctr128_encrypt` leaves after encrypting `len` bytes of
/// `input` into `out0` (giving `out`) from the counter block `iv0` (giving
/// `iv`), the keystream block `buf0` (giving `buf`) and the keystream
/// position `num0` (giving `num`): the first bytes use the rest of `buf0`;
/// after them byte `t` of block `j` is combined by XOR with byte `t` of the
/// encryption of `ctr128_block(iv0, j)`, a last partial block too; `iv` is
/// the counter block after those used, `buf` the last keystream block made,
/// and `num` the position in it.
pub open spec fn ctr128_mode_encrypted(
    input: Seq<u8>,
    len: nat,
    rd: Seq<u32>,
    rounds: nat,
    out0: Seq<u8>,
    out: Seq<u8>,
    iv0: Seq<u8>,
    iv: Seq<u8>,
    buf0: Seq<u8>,
    buf: Seq<u8>,
    num0: u32,
    num: u32,
) -> bool {
    let p = prefix_len(num0 as nat, len);
    let rest = (len - p) as nat;
    let full = rest / 16;
    let tail = rest % 16;
    &&& out.len() == out0.len()
    &&& forall|k: int| 0 <= k < p ==> #[trigger] out[k] == input[k] ^ buf0[num0 + k]
    &&& forall|j: int, t: int|
        0 <= j < full && 0 <= t < 16 ==> #[trigger] out[p + 16 * j + t] == input[p + 16 * j + t] ^ aes_encrypt(
            rd,
            rounds,
            ctr128_block(iv0, j as nat),
        )[t]
    &&& forall|t: int|
        0 <= t < tail ==> #[trigger] out[p + 16 * full + t] == input[p + 16 * full + t] ^ aes_encrypt(
            rd,
            rounds,
            ctr128_block(iv0, full),
        )[t]
    &&& forall|k: int| len <= k < out.len() ==> #[trigger] out[k] == out0[k]
    &&& iv == ctr128_block(iv0, if tail > 0 { full + 1 } else { full })
    &&& buf == (if tail > 0 {
        aes_encrypt(rd, rounds, ctr128_block(iv0, full))
    } else if full > 0 {
        aes_encrypt(rd, rounds, ctr128_block(iv0, (full - 1) as nat))
    } else {
        buf0
    })
    &&& num == (if rest == 0 {
        if len > 0 {
            ((num0 + p) % 16) as u32
        } else {
            num0
        }
    } else {
        tail as u32
    })
}

/// Makes the keystream block of the counter block `ivec` in `block_buffer`
/// and moves `ivec` on to the next counter block.
fn next_keystream(key: &([u32; 60], u32), ivec: &mut [u8; 16], block_buffer: &mut [u8; 16])
    requires
        10 <= key.1 <= 14,
    ensures
        final(block_buffer)@ == aes_encrypt(key.0@, key.1 as nat, old(ivec)@),
        final(ivec)@ == inc88(old(ivec)@),
{
    *block_buffer = aes_encrypt_block(&key.0, key.1, ivec);
    let ghost before = ivec@;
    ctr128_inc(ivec);
    proof {
        lemma_be_bytes_of_value(ivec@.take(11));
        assert(ivec@ =~= ivec@.take(11) + ivec@.skip(11));
        assert(ivec@ =~= inc88(before));
    }
}

/// Encrypts `len` bytes of `input` into `output` in 128-bit counter mode,
/// one block at a time (see `ctr128_mode_encrypted`): first the rest of the
/// keystream block in `block_buffer` from position `num`, then whole
/// blocks, then a last partial block, whose keystream stays in
/// `block_buffer` for the next call, with `num` the position in it.
pub fn crypto_ctr128_encrypt(
    input: &[u8],
    output: &mut [u8],
    len: usize,
    key: &([u32; 60], u32),
    ivec: &mut [u8; 16],
    block_buffer: &mut [u8; 16],
    num: &mut u32,
)
    requires
        len <= input@.len(),
        len <= old(output)@.len(),
        *old(num) < 16 || len == 0,
        len - prefix_len(*old(num) as nat, len as nat) > 0 ==> (key.1 == 10 || key.1 == 12 || key.1 == 14),
    ensures
        ctr128_mode_encrypted(
            input@,
            len as nat,
            key.0@,
            key.1 as nat,
            old(output)@,
            final(output)@,
            old(ivec)@,
            final(ivec)@,
            old(block_buffer)@,
            final(block_buffer)@,
            *old(num),
            *final(num),
        ),
{
    let ghost len0 = len;
    let ghost p = prefix_len(*num as nat, len as nat);
    let ghost iv0 = ivec@;
    let ghost out0 = output@;
    let ghost buf0 = block_buffer@;
    let mut n = *num as usize;
    let mut len = len;
    let mut i: usize = 0;
    while n > 0 && len > 0
        invariant
            len + i == len0,
            len0 <= input@.len(),
            len0 <= out0.len(),
            output@.len() == out0.len(),
            *old(num) < 16 || len0 == 0,
            *num == *old(num),
            block_buffer@ == buf0,
            ivec@ == iv0,
            p == prefix_len(*old(num) as nat, len0 as nat),
            n == 0 ==> i == p,
            n > 0 ==> n == *old(num) + i && i <= p && (i < p ==> len > 0),
            n < 16 || len0 == 0,
            len0 > 0 ==> n == (*old(num) + i) % 16,
            len0 == 0 ==> n == *old(num),
            forall|k: int| 0 <= k < i ==> #[trigger] output@[k] == input@[k] ^ buf0[*old(num) + k],
            forall|k: int| i <= k < out0.len() ==> #[trigger] output@[k] == out0[k],
        decreases len,
    {
        output[i] = input[i] ^ block_buffer[n];
        len = len - 1;
        n = (n + 1) % 16;
        i = i + 1;
    }
    assert(i == p);
    let ghost rest = (len0 - p) as nat;
    let mut pos = i;
    let ghost mut j: nat = 0;
    while len >= 16
        invariant
            pos == p + 16 * j,
            len + pos == len0,
            len0 <= input@.len(),
            len0 <= out0.len(),
            output@.len() == out0.len(),
            rest == len0 - p,
            16 * j <= rest,
            len0 > 0 ==> n == (*old(num) + p) % 16,
            len0 == 0 ==> n == *old(num),
            len > 0 ==> (key.1 == 10 || key.1 == 12 || key.1 == 14),
            ivec@ == ctr128_block(iv0, j),
            block_buffer@ == (if j > 0 {
                aes_encrypt(key.0@, key.1 as nat, ctr128_block(iv0, (j - 1) as nat))
            } else {
                buf0
            }),
            forall|k: int| 0 <= k < p ==> #[trigger] output@[k] == input@[k] ^ buf0[*old(num) + k],
            forall|jj: int, t: int|
                0 <= jj < j && 0 <= t < 16 ==> #[trigger] output@[p + 16 * jj + t] == input@[p + 16 * jj + t]
                    ^ aes_encrypt(key.0@, key.1 as nat, ctr128_block(iv0, jj as nat))[t],
            forall|k: int| pos <= k < out0.len() ==> #[trigger] output@[k] == out0[k],
        decreases len,
    {
        next_keystream(key, ivec, block_buffer);
        for t in 0..16
            invariant
                pos + 16 <= len0,
                len0 <= input@.len(),
                len0 <= out0.len(),
                output@.len() == out0.len(),
                pos == p + 16 * j,
                block_buffer@ == aes_encrypt(key.0@, key.1 as nat, ctr128_block(iv0, j)),
                forall|k: int| 0 <= k < p ==> #[trigger] output@[k] == input@[k] ^ buf0[*old(num) + k],
                forall|jj: int, u: int|
                    0 <= jj < j && 0 <= u < 16 ==> #[trigger] output@[p + 16 * jj + u] == input@[p + 16 * jj + u]
                        ^ aes_encrypt(key.0@, key.1 as nat, ctr128_block(iv0, jj as nat))[u],
                forall|u: int| 0 <= u < t ==> #[trigger] output@[pos + u] == input@[pos + u] ^ block_buffer@[u],
                forall|k: int| pos + t <= k < out0.len() ==> #[trigger] output@[k] == out0[k],
        {
            output[pos + t] = input[pos + t] ^ block_buffer[t];
        }
        proof {
            assert forall|jj: int, t: int|
                0 <= jj < j + 1 && 0 <= t < 16 implies #[trigger] output@[p + 16 * jj + t] == input@[p + 16 * jj + t]
                    ^ aes_encrypt(key.0@, key.1 as nat, ctr128_block(iv0, jj as nat))[t] by {
                if jj == j {
                    assert(output@[pos + t] == input@[pos + t] ^ block_buffer@[t]);
                }
            }
            j = j + 1;
        }
        len = len - 16;
        pos = pos + 16;
    }
    let ghost full = j;
    assert(full == rest / 16 && len == rest % 16);
    if len != 0 {
        next_keystream(key, ivec, block_buffer);
        n = 0;
        while len > 0
            invariant
                pos == p + 16 * full,
                pos + n + len == len0,
                len0 <= input@.len(),
                len0 <= out0.len(),
                output@.len() == out0.len(),
                n <= 16,
                n + len < 16,
                block_buffer@ == aes_encrypt(key.0@, key.1 as nat, ctr128_block(iv0, full)),
                forall|k: int| 0 <= k < p ==> #[trigger] output@[k] == input@[k] ^ buf0[*old(num) + k],
                forall|jj: int, u: int|
                    0 <= jj < full && 0 <= u < 16 ==> #[trigger] output@[p + 16 * jj + u] == input@[p + 16 * jj + u]
                        ^ aes_encrypt(key.0@, key.1 as nat, ctr128_block(iv0, jj as nat))[u],
                forall|u: int| 0 <= u < n ==> #[trigger] output@[pos + u] == input@[pos + u] ^ block_buffer@[u],
                forall|k: int| pos + n <= k < out0.len() ==> #[trigger] output@[k] == out0[k],
            decreases len,
        {
            output[pos + n] = input[pos + n] ^ block_buffer[n];
            n = n + 1;
            len = len - 1;
        }
    }
    *num = n as u32;
}

/// Encrypts `len` bytes of `input` into `output` in counter mode: first the
/// rest of the keystream block in `block_buffer` from position `num`, then
/// whole blocks, each combined by XOR with the encryption of its counter
/// block (see `ctr_stream`), after which `ivec` holds the next counter
/// block (see `ctr_final`) and `num` the position in the keystream block.
pub fn crypto_ctr128_encrypt_ctr32(
    input: &[u8],
    output: &mut [u8],
    len: usize,
    key: &([u32; 60], u32),
    ivec: &mut [u8; 16],
    block_buffer: &mut [u8; 16],
    num: &mut u32,
    func: AesFunc,
)
    requires
        func == AesFunc::AesHwCtr32EncryptBlocks,
        len <= input@.len(),
        len <= old(output)@.len(),
        *old(num) < 16 || len == 0,
        (len - prefix_len(*old(num) as nat, len as nat)) % 16 == 0,
        len - prefix_len(*old(num) as nat, len as nat) >= 16 ==> (key.1 == 10 || key.1 == 12 || key.1 == 14),
    ensures
        ctr_mode_encrypted(
            input@,
            len as nat,
            key.0@,
            key.1 as nat,
            old(output)@,
            final(output)@,
            old(ivec)@,
            final(ivec)@,
            old(block_buffer)@,
            final(block_buffer)@,
            *old(num),
            *final(num),
        ),
{
    let ghost len0 = len;
    let ghost p = prefix_len(*num as nat, len as nat);
    let ghost iv0 = ivec@;
    let ghost out0 = output@;
    let mut n = *num as usize;
    let mut len = len;
    let mut i: usize = 0;
    while n > 0 && len > 0
        invariant
            len + i == len0,
            len0 <= input@.len(),
            len0 <= out0.len(),
            output@.len() == out0.len(),
            *old(num) < 16 || len0 == 0,
            *num == *old(num),
            p == prefix_len(*old(num) as nat, len0 as nat),
            n == 0 ==> i == p,
            n > 0 ==> n == *old(num) + i && i <= p && (i < p ==> len > 0),
            n < 16 || len0 == 0,
            len0 > 0 ==> n == (*old(num) + i) % 16,
            len0 == 0 ==> n == *old(num),
            forall|k: int| 0 <= k < i ==> #[trigger] output@[k] == input@[k] ^ block_buffer@[*old(num) + k],
            forall|k: int| i <= k < out0.len() ==> #[trigger] output@[k] == out0[k],
        decreases len,
    {
        output[i] = input[i] ^ block_buffer[n];
        len = len - 1;
        n = (n + 1) % 16;
        i = i + 1;
    }
    assert(i == p);
    let ghost b = ((len0 - p) / 16) as nat;
    let mut pos = i;
    let mut ctr32 = read_ctr32(ivec);
    let ghost mut done: Seq<Seq<u8>> = Seq::empty();
    while len >= 16
        invariant
            pos == p + 16 * done.len(),
            len as int == 16 * (b - done.len()),
            done.len() <= b,
            pos + len <= input@.len(),
            pos + len <= out0.len(),
            output@.len() == out0.len(),
            len0 == p + 16 * b,
            ctr32 == be_value(ivec@.subrange(12, 16)),
            len0 > 0 ==> n == (*old(num) + p) % 16,
            len0 == 0 ==> n == *old(num),
            ctr_stream(iv0, b) == done + ctr_stream(ivec@, (b - done.len()) as nat),
            ctr_final(iv0, b) == ctr_final(ivec@, (b - done.len()) as nat),
            len >= 16 ==> (key.1 == 10 || key.1 == 12 || key.1 == 14),
            forall|k: int| 0 <= k < p ==> #[trigger] output@[k] == input@[k] ^ block_buffer@[*old(num) + k],
            forall|j: int, t: int|
                0 <= j < done.len() && 0 <= t < 16 ==> #[trigger] output@[p + 16 * j + t] == input@[p + 16 * j + t]
                    ^ aes_encrypt(key.0@, key.1 as nat, done[j])[t],
            forall|k: int| pos <= k < out0.len() ==> #[trigger] output@[k] == out0[k],
        decreases len,
    {
        let ghost rem = (b - done.len()) as nat;
        let ghost iv = ivec@;
        let (blocks, next) = next_chunk(len / 16, ctr32);
        ctr32 = next;
        encrypt_blocks_at(input, output, pos, blocks, key, ivec);
        set_counter(ivec, ctr32);
        proof {
            let chunk = Seq::new(blocks as nat, |j: int| ctr32_block(iv, j as nat));
            lemma_output_extends(
                output@,
                input@,
                key.0@,
                key.1 as nat,
                p as int,
                pos as int,
                done,
                chunk,
            );
            done = done + chunk;
        }
        let step = blocks * 16;
        len = len - step;
        pos = pos + step;
        proof {
            lemma_chunk_step(iv, rem, ivec@);
        }
    }
    proof {
        assert(done.len() == b);
        assert(done + ctr_stream(ivec@, 0) =~= done);
        reveal(ctr_mode_encrypted);
    }
    *num = n as u32;
}

/// The number of blocks that the next call encrypts, of `blocks` left,
/// from the 32-bit counter `ctr32`, and the counter after them.
fn next_chunk(blocks: usize, ctr32: u32) -> (r: (usize, u32))
    ensures
        (r.0 as nat, r.1 as nat) == chunk_of(ctr32 as nat, blocks as nat),
        blocks > 0 ==> 0 < r.0 <= blocks,
{
    let b64 = blocks as u64;
    let low = b64 & 0xffff_ffff;
    assert(low == b64 % 0x1_0000_0000) by (bit_vector)
        requires
            low == b64 & 0xffff_ffff,
    ;
    let bt = low as u32;
    let c = ctr32.wrapping_add(bt);
    assert(c == (ctr32 + bt) % 0x1_0000_0000) by (bit_vector)
        requires
            c == ctr32.wrapping_add(bt),
    ;
    if c < bt {
        (blocks - c as usize, 0)
    } else {
        (blocks, c)
    }
}

/// The four big-endian bytes of a word spell the word.
proof fn lemma_be_value_word(c: u32)
    ensures
        be_value(crate::utils::words_to_be_bytes(seq![c])) == c,
{
    let s = crate::utils::words_to_be_bytes(seq![c]);
    reveal_with_fuel(be_value, 5);
    assert(s.drop_last().drop_last().drop_last().drop_last() =~= Seq::<u8>::empty());
    assert(s.drop_last().drop_last().drop_last() =~= seq![s[0]]);
    assert(s.drop_last().drop_last() =~= seq![s[0], s[1]]);
    assert(s.drop_last() =~= seq![s[0], s[1], s[2]]);
    let b0 = (c >> 24u32) as u8;
    let b1 = (c >> 16u32) as u8;
    let b2 = (c >> 8u32) as u8;
    let b3 = c as u8;
    assert(s[0] == b0 && s[1] == b1 && s[2] == b2 && s[3] == b3);
    assert(((b0 as u32 * 256 + b1 as u32) * 256 + b2 as u32) * 256 + b3 as u32 == c) by (bit_vector)
        requires
            b0 == (c >> 24u32) as u8,
            b1 == (c >> 16u32) as u8,
            b2 == (c >> 8u32) as u8,
            b3 == c as u8,
    ;
}

/// `be_bytes_n` gives `n` bytes.
proof fn lemma_be_bytes_len(v: nat, n: nat)
    ensures
        be_bytes_n(v, n).len() == n,
    decreases n,
{
    if n > 0 {
        lemma_be_bytes_len(v / 256, (n - 1) as nat);
    }
}

/// Counter-mode encryption of `len` bytes of `input` into `out` with the
/// block routine of the AES instructions; see `crypto_ctr128_encrypt_ctr32`.
/// It does not fail.
fn aes_ctr128_encrypt(
    input: &[u8],
    out: &mut [u8],
    len: usize,
    key: &([u32; 60], u32),
    ivec: &mut [u8; 16],
    block_buffer: &mut [u8; 16],
    num: &mut u32,
) -> (r: Result<(), ()>)
    requires
        len <= input@.len(),
        len <= old(out)@.len(),
        *old(num) < 16 || len == 0,
        (len - prefix_len(*old(num) as nat, len as nat)) % 16 == 0,
        len - prefix_len(*old(num) as nat, len as nat) >= 16 ==> (key.1 == 10 || key.1 == 12 || key.1 == 14),
    ensures
        r == Ok::<(), ()>(()),
        ctr_mode_encrypted(
            input@,
            len as nat,
            key.0@,
            key.1 as nat,
            old(out)@,
            final(out)@,
            old(ivec)@,
            final(ivec)@,
            old(block_buffer)@,
            final(block_buffer)@,
            *old(num),
            *final(num),
        ),
{
    crypto_ctr128_encrypt_ctr32(
        input,
        out,
        len,
        key,
        ivec,
        block_buffer,
        num,
        AesFunc::AesHwCtr32EncryptBlocks,
    );
    Ok(())
}

/// Encrypts `in_out` in place in counter mode from the counter block
/// `ivec`, starting at a fresh keystream block: block `j` is combined by
/// XOR with the encryption of counter block `j` of `ctr_stream`, `ivec`
/// becomes the next counter block (see `ctr_final`), and the block buffer
/// is cleared. The key is left as it was.
#[allow(non_snake_case)]
pub fn AES_ctr128_encrypt(key: &mut AesKey, ivec: &mut [u8; 16], block_buffer: &mut [u8; 16], in_out: &mut [u8])
    requires
        old(in_out)@.len() % 16 == 0,
        old(in_out)@.len() >= 16 ==> (old(key)@.rounds == 10 || old(key)@.rounds == 12 || old(key)@.rounds == 14),
    ensures
        *final(key) == *old(key),
        ctr128_encrypted(old(key)@.rd_key, old(key)@.rounds as nat, old(ivec)@, old(in_out)@, final(in_out)@),
        final(ivec)@ == ctr_final(old(ivec)@, (old(in_out)@.len() / 16) as nat),
        final(block_buffer)@ == Seq::new(16, |i: int| 0u8),
{
    let ghost iv0 = ivec@;
    let ghost buf0 = block_buffer@;
    let ghost out0 = in_out@;
    let mut num: u32 = 0;
    let input = vstd::slice::slice_to_vec(in_out);
    let len = in_out.len();
    let rk = (key.rd_key, key.rounds);
    let res = aes_ctr128_encrypt(input.as_slice(), in_out, len, &rk, ivec, block_buffer, &mut num);
    let ghost mid_buf = block_buffer@;
    let ghost out1 = in_out@;
    match res {
        Ok(_) => {
            clear_block(block_buffer);
        },
        Err(_) => {},
    }
    proof {
        lemma_fresh_ctr(input@, len as nat, rk.0@, rk.1 as nat, out0, out1, iv0, ivec@, buf0, mid_buf, num);
    }
}

/// Counter mode from a fresh keystream block over whole blocks: block `j`
/// of the output is block `j` of the input combined with the encryption of
/// counter block `j`, and the counter block moves on by the blocks.
proof fn lemma_fresh_ctr(
    input: Seq<u8>,
    len: nat,
    rd: Seq<u32>,
    rounds: nat,
    out0: Seq<u8>,
    out: Seq<u8>,
    iv0: Seq<u8>,
    iv: Seq<u8>,
    buf0: Seq<u8>,
    buf: Seq<u8>,
    num: u32,
)
    requires
        len % 16 == 0,
        ctr_mode_encrypted(input, len, rd, rounds, out0, out, iv0, iv, buf0, buf, 0, num),
    ensures
        out.len() == out0.len(),
        forall|j: int, t: int|
            0 <= j < len / 16 && 0 <= t < 16 ==> #[trigger] out[16 * j + t] == input[16 * j + t] ^ aes_encrypt(
                rd,
                rounds,
                ctr_stream(iv0, (len / 16) as nat)[j],
            )[t],
        iv == ctr_final(iv0, (len / 16) as nat),
{
    reveal(ctr_mode_encrypted);
    assert(prefix_len(0, len) == 0);
    assert forall|j: int, t: int| 0 <= j < len / 16 && 0 <= t < 16 implies #[trigger] out[16 * j + t] == input[16 * j
        + t] ^ aes_encrypt(rd, rounds, ctr_stream(iv0, (len / 16) as nat)[j])[t] by {
        assert(out[0 + 16 * j + t] == input[0 + 16 * j + t] ^ aes_encrypt(
            rd,
            rounds,
            ctr_stream(iv0, ((len - 0) / 16) as nat)[j],
        )[t]);
    }
}

/// `out` is `msg` encrypted in counter mode from the counter block `iv`:
/// block `j` combined by XOR with the encryption of counter block `j` of
/// `ctr_stream`.
pub open spec fn ctr128_encrypted(rd: Seq<u32>, rounds: nat, iv: Seq<u8>, msg: Seq<u8>, out: Seq<u8>) -> bool {
    &&& out.len() == msg.len()
    &&& forall|j: int, t: int|
        0 <= j < msg.len() / 16 && 0 <= t < 16 ==> #[trigger] out[16 * j + t] == msg[16 * j + t] ^ aes_encrypt(
            rd,
            rounds,
            ctr_stream(iv, (msg.len() / 16) as nat)[j],
        )[t]
}

/// Counter mode over whole blocks is a function of key, counter block and
/// message: two encryptions of one message under one key and counter
/// block give the same bytes.
pub proof fn law_ctr128_deterministic(rd: Seq<u32>, rounds: nat, iv: Seq<u8>, msg: Seq<u8>, out1: Seq<u8>, out2: Seq<u8>)
    requires
        msg.len() % 16 == 0,
        ctr128_encrypted(rd, rounds, iv, msg, out1),
        ctr128_encrypted(rd, rounds, iv, msg, out2),
    ensures
        out1 == out2,
{
    assert forall|k: int| 0 <= k < out1.len() implies out1[k] == out2[k] by {
        let j = k / 16;
        let t = k % 16;
        assert(k == 16 * j + t && 0 <= t < 16 && 0 <= j < msg.len() / 16) by (nonlinear_arith)
            requires
                0 <= k < msg.len(),
                msg.len() % 16 == 0,
                j == k / 16,
                t == k % 16,
        ;
        assert(out1[16 * j + t] == out2[16 * j + t]);
    }
    assert(out1 =~= out2);
}

/// Overwrites every byte of `buf` with zero.
fn clear_block(buf: &mut [u8; 16])
    ensures
        final(buf)@ == Seq::new(16, |i: int| 0u8),
{
    let mut i: usize = 0;
    while i < 16
        invariant
            i <= 16,
            buf@.len() == 16,
            forall|k: int| 0 <= k < i ==> buf@[k] == 0,
        decreases 16 - i,
    {
        buf[i] = 0;
        i = i + 1;
    }
    assert(buf@ =~= Seq::new(16, |i: int| 0u8));
}

/// Sets the 32-bit counter of the counter block `ivec` to `ctr32`, and
/// where it is zero (it wrapped) carries into the first eleven bytes.
fn set_counter(ivec: &mut [u8; 16], ctr32: u32)
    ensures
        final(ivec)@ == (if ctr32 == 0 {
            inc88(set_low(old(ivec)@, 0))
        } else {
            set_low(old(ivec)@, ctr32)
        }),
        be_value(final(ivec)@.subrange(12, 16)) == ctr32,
{
    let ghost iv = ivec@;
    crate::utils::store_be(ivec, 12, ctr32);
    proof {
        assert forall|m: int| 0 <= m < 16 implies ivec@[m] == set_low(iv, ctr32)[m] by {
            if m >= 12 {
                assert(ivec@[12 + (m - 12)] == crate::utils::be_byte(ctr32, m - 12));
            }
        }
        assert(ivec@ =~= set_low(iv, ctr32));
    }
    if ctr32 == 0 {
        let ghost before_inc = ivec@;
        ctr96_inc(ivec);
        proof {
            lemma_be_bytes_of_value(ivec@.take(11));
            assert(ivec@ =~= ivec@.take(11) + ivec@.skip(11));
            assert(ivec@ =~= inc88(before_inc));
            lemma_be_bytes_len(((be_value(before_inc.take(11)) + 1) % pow256(11)) as nat, 11);
            assert(ivec@.subrange(12, 16) =~= before_inc.subrange(12, 16));
        }
    }
    proof {
        lemma_be_value_word(ctr32);
        assert(set_low(iv, ctr32).subrange(12, 16) =~= crate::utils::words_to_be_bytes(seq![ctr32]));
    }
}

/// The blocks already written stay, and the chunk just written at `pos`
/// joins them.
proof fn lemma_output_extends(
    output: Seq<u8>,
    input: Seq<u8>,
    rd: Seq<u32>,
    rounds: nat,
    p: int,
    pos: int,
    done: Seq<Seq<u8>>,
    chunk: Seq<Seq<u8>>,
)
    requires
        pos == p + 16 * done.len(),
        forall|j: int, t: int|
            0 <= j < done.len() && 0 <= t < 16 ==> #[trigger] output[p + 16 * j + t] == input[p + 16 * j + t]
                ^ aes_encrypt(rd, rounds, done[j])[t],
        forall|j: int, t: int|
            0 <= j < chunk.len() && 0 <= t < 16 ==> #[trigger] output[pos + 16 * j + t] == input[pos + 16 * j + t]
                ^ aes_encrypt(rd, rounds, chunk[j])[t],
    ensures
        forall|j: int, t: int|
            0 <= j < done.len() + chunk.len() && 0 <= t < 16 ==> #[trigger] output[p + 16 * j + t] == input[p + 16
                * j + t] ^ aes_encrypt(rd, rounds, (done + chunk)[j])[t],
{
    assert forall|j: int, t: int|
        0 <= j < done.len() + chunk.len() && 0 <= t < 16 implies #[trigger] output[p + 16 * j + t] == input[p + 16
            * j + t] ^ aes_encrypt(rd, rounds, (done + chunk)[j])[t] by {
        if j >= done.len() {
            let jj = j - done.len();
            assert(p + 16 * j + t == pos + 16 * jj + t);
            assert(output[pos + 16 * jj + t] == input[pos + 16 * jj + t] ^ aes_encrypt(rd, rounds, chunk[jj])[t]);
        }
    }
}

/// Encrypts `blocks` whole blocks of `input` from position `pos` into the
/// same place of `output`, in counter mode from the counter block `ivec`.
fn encrypt_blocks_at(
    input: &[u8],
    output: &mut [u8],
    pos: usize,
    blocks: usize,
    key: &([u32; 60], u32),
    ivec: &mut [u8; 16],
)
    requires
        blocks > 0,
        pos + 16 * blocks <= input@.len(),
        pos + 16 * blocks <= old(output)@.len(),
        key.1 == 10 || key.1 == 12 || key.1 == 14,
    ensures
        final(output)@.len() == old(output)@.len(),
        final(ivec)@ == old(ivec)@,
        forall|j: int, t: int|
            0 <= j < blocks && 0 <= t < 16 ==> #[trigger] final(output)@[pos + 16 * j + t] == input@[pos + 16 * j
                + t] ^ aes_encrypt(key.0@, key.1 as nat, ctr32_block(old(ivec)@, j as nat))[t],
        forall|k: int|
            0 <= k < old(output)@.len() && !(pos <= k < pos + 16 * blocks) ==> #[trigger] final(output)@[k]
                == old(output)@[k],
{
    let in_len = input.len();
    let out_len = output.len();
    let cl = blocks * 16;
    let mut chunk_in: Vec<u8> = Vec::new();
    let mut chunk_out: Vec<u8> = Vec::new();
    for k in 0..cl
        invariant
            cl == blocks * 16,
            in_len == input@.len(),
            out_len == output@.len(),
            chunk_in@.len() == k,
            chunk_out@.len() == k,
            pos + cl <= input@.len(),
            pos + cl <= output@.len(),
            forall|m: int| 0 <= m < k ==> #[trigger] chunk_in@[m] == input@[pos + m],
            forall|m: int| 0 <= m < k ==> #[trigger] chunk_out@[m] == output@[pos + m],
    {
        chunk_in.push(input[pos + k]);
        chunk_out.push(output[pos + k]);
    }
    let ghost iv = ivec@;
    aes_hw_ctr32_encrypt_blocks(chunk_in.as_slice(), chunk_out.as_mut_slice(), key, ivec);
    let ghost before = output@;
    for k in 0..cl
        invariant
            cl == blocks * 16,
            out_len == output@.len(),
            chunk_out@.len() == cl,
            pos + cl <= output@.len(),
            output@.len() == before.len(),
            forall|m: int| 0 <= m < k ==> #[trigger] output@[pos + m] == chunk_out@[m],
            forall|m: int| 0 <= m < output@.len() && !(pos <= m < pos + k) ==> #[trigger] output@[m] == before[m],
    {
        output[pos + k] = chunk_out[k];
    }
    proof {
        assert(cl / 16 == blocks as int);
        assert forall|j: int, t: int|
            0 <= j < blocks && 0 <= t < 16 implies #[trigger] output@[pos + 16 * j + t] == input@[pos + 16 * j + t]
                ^ aes_encrypt(key.0@, key.1 as nat, ctr32_block(iv, j as nat))[t] by {
            assert(16 * j + t < cl) by (nonlinear_arith)
                requires
                    j < blocks,
                    t < 16,
                    cl == blocks * 16,
            ;
            assert(output@[pos + (16 * j + t)] == chunk_out@[16 * j + t]);
            assert(chunk_in@[16 * j + t] == input@[pos + (16 * j + t)]);
        }
    }
}

/// One step of counter mode over `rem` whole blocks from `iv`: the first
/// chunk, then the rest from the counter block after it.
proof fn lemma_chunk_step(iv: Seq<u8>, rem: nat, new_iv: Seq<u8>)
    requires
        rem > 0,
        new_iv == (if ctr_chunk(iv, rem).1 == 0 {
            inc88(set_low(iv, 0))
        } else {
            set_low(iv, ctr_chunk(iv, rem).1 as u32)
        }),
    ensures
        ctr_stream(iv, rem) == Seq::new(ctr_chunk(iv, rem).0, |j: int| ctr32_block(iv, j as nat)) + ctr_stream(
            new_iv,
            (rem - ctr_chunk(iv, rem).0) as nat,
        ),
        ctr_final(iv, rem) == ctr_final(new_iv, (rem - ctr_chunk(iv, rem).0) as nat),
{
    let (first, c) = ctr_chunk(iv, rem);
    if first == rem {
        let chunk = Seq::new(first, |j: int| ctr32_block(iv, j as nat));
        assert(chunk + Seq::<Seq<u8>>::empty() =~= chunk);
    }
}

} // verus!
