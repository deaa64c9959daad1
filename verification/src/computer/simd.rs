//! SIMD instructions: lane-wise arithmetic, moves and shifts of vector
//! registers, and vector loads and stores.
use vstd::prelude::*;
use crate::common::{
    ExprModel, RegisterModel, SimdModel, SimdRegister, be_acc64, copy_option, expression_from_options,
    generate_expression_from_options, opt_model,
};
use crate::computer::instructions::{checked, copy_operand, proceed, result_model};
use crate::computer::memory::{load_ok, outcome};
use crate::computer::{ARMCORTEXA, readable, simd_index, simd_operand};
use crate::instruction_parser::{Arrangement, Instruction, Operand, OperandModel, operands_view};

verus! {

/// The eight bytes of `x`, most significant first.
pub open spec fn be8(x: u64) -> Seq<u8> {
    Seq::new(8, |i: int| ((x >> ((8 * (7 - i)) as u64)) & 0xffu64) as u8)
}

/// `shl` by `s` of the doublewords of `src` into `dst`: the lanes' symbolic
/// parts come from `src`, and each doubleword's bytes are those of its
/// big-endian value shifted left by `s` (modulo 64).
pub open spec fn shl_lanes(dst: SimdModel, src: SimdModel, s: u32) -> SimdModel {
    SimdModel {
        kind: dst.kind,
        base: src.base,
        offset: be8(vstd::wrapping::u64_specs::wrapping_shl(be_acc64(src.offset.subrange(0, 8), 8), s)) + be8(
            vstd::wrapping::u64_specs::wrapping_shl(be_acc64(src.offset.subrange(8, 16), 8), s),
        ),
    }
}

/// Whether `op` names a SIMD register in one of the arrangements in which
/// lane-wise arithmetic is made.
pub open spec fn arithmetic_vector(op: OperandModel) -> bool {
    match op {
        OperandModel::Vector(_, n, a) => n < 32 && (a == Arrangement::D2 || a == Arrangement::S4 || a
            == Arrangement::H8 || a == Arrangement::B8 || a == Arrangement::B16),
        _ => false,
    }
}

/// Whether `op` names a SIMD register, as a whole or in an arrangement.
pub open spec fn any_vector(op: OperandModel) -> bool {
    match op {
        OperandModel::Vector(_, n, _) => n < 32,
        _ => false,
    }
}

/// The big-endian value of eight bytes.
fn be_value8(b: &[u8; 8]) -> (r: u64)
    ensures
        r == be_acc64(b@, 8),
{
    let mut acc: u64 = 0;
    for i in 0..8
        invariant
            acc == be_acc64(b@, i as nat),
    {
        acc = (acc << 8u64) | (b[i] as u64);
    }
    acc
}

/// The eight bytes of `x`, most significant first.
fn be_bytes8(x: u64) -> (r: [u8; 8])
    ensures
        r@ == be8(x),
{
    let mut r = [0u8; 8];
    for i in 0..8
        invariant
            forall|j: int| 0 <= j < i ==> r@[j] == be8(x)[j],
    {
        r[i] = ((x >> (8 * (7 - i as u64))) & 0xffu64) as u8;
    }
    assert(r@ =~= be8(x));
    r
}

/// Halfword lane `k` of the bytes `s`, most significant byte first.
pub open spec fn half_lane(s: Seq<u8>, k: int) -> u16 {
    ((s[2 * k] as u16) << 8u16) | (s[2 * k + 1] as u16)
}

/// Word lane `k` of the bytes `s`, most significant byte first.
pub open spec fn word_lane(s: Seq<u8>, k: int) -> u32 {
    ((s[4 * k] as u32) << 24u32) | ((s[4 * k + 1] as u32) << 16u32) | ((s[4 * k + 2] as u32) << 8u32) | (s[4
        * k + 3] as u32)
}

/// Doubleword lane `k` of the bytes `s`, most significant byte first.
pub open spec fn double_lane(s: Seq<u8>, k: int) -> u64 {
    ((s[8 * k] as u64) << 56u64) | ((s[8 * k + 1] as u64) << 48u64) | ((s[8 * k + 2] as u64) << 40u64) | ((s[8
        * k + 3] as u64) << 32u64) | ((s[8 * k + 4] as u64) << 24u64) | ((s[8 * k + 5] as u64) << 16u64) | ((s[8
        * k + 6] as u64) << 8u64) | (s[8 * k + 7] as u64)
}

/// The arrangement that a vector operand names.
pub open spec fn vector_arrangement(op: OperandModel) -> Arrangement {
    match op {
        OperandModel::Vector(_, _, a) => a,
        _ => Arrangement::B16,
    }
}

/// How many bytes of the destination a lane-wise operation in `a` writes.
pub open spec fn lane_bytes(a: Arrangement) -> int {
    if a == Arrangement::B8 {
        8
    } else {
        16
    }
}

/// The symbolic part of a destination byte whose sources have `x` and
/// `y`: `x op y`; for doublewords only where both are present.
pub open spec fn lane_base(op: Seq<char>, a: Arrangement, x: Option<ExprModel>, y: Option<ExprModel>) -> Option<ExprModel> {
    if a == Arrangement::D2 && !(x is Some && y is Some) {
        None
    } else {
        expression_from_options(op, x, y)
    }
}

/// `new` keeps the kind of the destination `d` and its bytes past those
/// that an operation in `a` writes, and each written byte has the symbolic
/// part that `lane_base` makes from the sources `s1` and `s2`.
pub open spec fn lane_parts_set(new: SimdModel, d: SimdModel, s1: SimdModel, s2: SimdModel, a: Arrangement, op: Seq<char>) -> bool {
    &&& new.kind == d.kind
    &&& new.base.len() == 16
    &&& new.offset.len() == 16
    &&& forall|j: int| lane_bytes(a) <= j < 16 ==> #[trigger] new.base[j] == d.base[j] && new.offset[j] == d.offset[j]
    &&& forall|j: int| 0 <= j < lane_bytes(a) ==> #[trigger] new.base[j] == lane_base(op, a, s1.base[j], s2.base[j])
}

/// The lane-wise operations of the SIMD arithmetic instructions.
#[derive(Debug, Clone, Copy, PartialEq, Eq, Structural)]
pub enum LaneOp {
    And,
    Add,
    Orr,
    Eor,
    Mul,
    Sub,
}

/// Whether `op` is the mnemonic of a lane-wise operation.
pub open spec fn is_lane_op(op: Seq<char>) -> bool {
    op == "and"@ || op == "add"@ || op == "orr"@ || op == "eor"@ || op == "mul"@ || op == "sub"@
}

/// The lane-wise operation that the mnemonic `op` names.
pub open spec fn lane_op_of(op: Seq<char>) -> LaneOp {
    if op == "and"@ {
        LaneOp::And
    } else if op == "add"@ {
        LaneOp::Add
    } else if op == "orr"@ {
        LaneOp::Orr
    } else if op == "eor"@ {
        LaneOp::Eor
    } else if op == "mul"@ {
        LaneOp::Mul
    } else {
        LaneOp::Sub
    }
}

/// The operator with which the symbolic parts of the lanes are combined.
pub open spec fn lane_symbol(k: LaneOp) -> Seq<char> {
    match k {
        LaneOp::And => "&"@,
        LaneOp::Add => "+"@,
        LaneOp::Orr => "|"@,
        LaneOp::Eor => "^"@,
        LaneOp::Mul => "*"@,
        LaneOp::Sub => "-"@,
    }
}

/// `k` on two byte lanes; sums, products and differences wrap.
pub open spec fn lane_u8(k: LaneOp, x: u8, y: u8) -> u8 {
    match k {
        LaneOp::And => x & y,
        LaneOp::Add => vstd::wrapping::u8_specs::wrapping_add(x, y),
        LaneOp::Orr => x | y,
        LaneOp::Eor => x ^ y,
        LaneOp::Mul => vstd::wrapping::u8_specs::wrapping_mul(x, y),
        LaneOp::Sub => vstd::wrapping::u8_specs::wrapping_sub(x, y),
    }
}

/// `k` on two halfword lanes; sums, products and differences wrap.
pub open spec fn lane_u16(k: LaneOp, x: u16, y: u16) -> u16 {
    match k {
        LaneOp::And => x & y,
        LaneOp::Add => vstd::wrapping::u16_specs::wrapping_add(x, y),
        LaneOp::Orr => x | y,
        LaneOp::Eor => x ^ y,
        LaneOp::Mul => vstd::wrapping::u16_specs::wrapping_mul(x, y),
        LaneOp::Sub => vstd::wrapping::u16_specs::wrapping_sub(x, y),
    }
}

/// `k` on two word lanes; sums, products and differences wrap.
pub open spec fn lane_u32(k: LaneOp, x: u32, y: u32) -> u32 {
    match k {
        LaneOp::And => x & y,
        LaneOp::Add => vstd::wrapping::u32_specs::wrapping_add(x, y),
        LaneOp::Orr => x | y,
        LaneOp::Eor => x ^ y,
        LaneOp::Mul => vstd::wrapping::u32_specs::wrapping_mul(x, y),
        LaneOp::Sub => vstd::wrapping::u32_specs::wrapping_sub(x, y),
    }
}

/// `k` on two doubleword lanes; sums, products and differences wrap.
pub open spec fn lane_u64(k: LaneOp, x: u64, y: u64) -> u64 {
    match k {
        LaneOp::And => x & y,
        LaneOp::Add => vstd::wrapping::u64_specs::wrapping_add(x, y),
        LaneOp::Orr => x | y,
        LaneOp::Eor => x ^ y,
        LaneOp::Mul => vstd::wrapping::u64_specs::wrapping_mul(x, y),
        LaneOp::Sub => vstd::wrapping::u64_specs::wrapping_sub(x, y),
    }
}

fn apply_u8(k: LaneOp, x: u8, y: u8) -> (r: u8)
    ensures
        r == lane_u8(k, x, y),
{
    match k {
        LaneOp::And => x & y,
        LaneOp::Add => x.wrapping_add(y),
        LaneOp::Orr => x | y,
        LaneOp::Eor => x ^ y,
        LaneOp::Mul => x.wrapping_mul(y),
        LaneOp::Sub => x.wrapping_sub(y),
    }
}

fn apply_u16(k: LaneOp, x: u16, y: u16) -> (r: u16)
    ensures
        r == lane_u16(k, x, y),
{
    match k {
        LaneOp::And => x & y,
        LaneOp::Add => x.wrapping_add(y),
        LaneOp::Orr => x | y,
        LaneOp::Eor => x ^ y,
        LaneOp::Mul => x.wrapping_mul(y),
        LaneOp::Sub => x.wrapping_sub(y),
    }
}

fn apply_u32(k: LaneOp, x: u32, y: u32) -> (r: u32)
    ensures
        r == lane_u32(k, x, y),
{
    match k {
        LaneOp::And => x & y,
        LaneOp::Add => x.wrapping_add(y),
        LaneOp::Orr => x | y,
        LaneOp::Eor => x ^ y,
        LaneOp::Mul => x.wrapping_mul(y),
        LaneOp::Sub => x.wrapping_sub(y),
    }
}

fn apply_u64(k: LaneOp, x: u64, y: u64) -> (r: u64)
    ensures
        r == lane_u64(k, x, y),
{
    match k {
        LaneOp::And => x & y,
        LaneOp::Add => x.wrapping_add(y),
        LaneOp::Orr => x | y,
        LaneOp::Eor => x ^ y,
        LaneOp::Mul => x.wrapping_mul(y),
        LaneOp::Sub => x.wrapping_sub(y),
    }
}

/// The source byte that `rev64` moves to byte `j` of its destination:
/// halfwords are reversed for `8h`, bytes otherwise.
pub open spec fn rev64_source(h8: bool, j: int) -> int {
    if !h8 {
        15 - j
    } else if j % 2 == 0 {
        14 - j
    } else {
        16 - j
    }
}

/// `new` is the destination `d` of `rev64` from `s`: each byte (symbolic
/// part and value) comes from `rev64_source`, and the kind is the source's
/// where the destination is named as a whole register, else its own.
pub open spec fn rev64_done(new: SimdModel, d: SimdModel, s: SimdModel, h8: bool, whole: bool) -> bool {
    &&& new.kind == (if whole {
        s.kind
    } else {
        d.kind
    })
    &&& new.base.len() == 16
    &&& new.offset.len() == 16
    &&& forall|j: int| 0 <= j < 16 ==> #[trigger] new.base[j] == s.base[rev64_source(h8, j)]
    &&& forall|j: int| 0 <= j < 16 ==> #[trigger] new.offset[j] == s.offset[rev64_source(h8, j)]
}

/// The destination `new` of the lane-wise operation `k` of `ops` (see
/// `vector_arithmetic`): its symbolic parts and the bytes it keeps are
/// fixed by `lane_parts_set`, and each written lane holds `k` on the
/// sources' lanes.
pub open spec fn lanes_computed(new: SimdModel, d: SimdModel, s1: SimdModel, s2: SimdModel, a: Arrangement, k: LaneOp) -> bool {
    &&& lane_parts_set(new, d, s1, s2, a, lane_symbol(k))
    &&& (a == Arrangement::B8 || a == Arrangement::B16) ==> forall|j: int|
        0 <= j < lane_bytes(a) ==> #[trigger] new.offset[j] == lane_u8(k, s1.offset[j], s2.offset[j])
    &&& a == Arrangement::H8 ==> forall|j: int|
        0 <= j < 8 ==> #[trigger] half_lane(new.offset, j) == lane_u16(k, half_lane(s1.offset, j), half_lane(s2.offset, j))
    &&& a == Arrangement::S4 ==> forall|j: int|
        0 <= j < 4 ==> #[trigger] word_lane(new.offset, j) == lane_u32(k, word_lane(s1.offset, j), word_lane(s2.offset, j))
    &&& a == Arrangement::D2 ==> forall|j: int|
        0 <= j < 2 ==> #[trigger] double_lane(new.offset, j) == lane_u64(k, double_lane(s1.offset, j), double_lane(s2.offset, j))
}

/// The first `n` byte lanes of `f` on `o1` and `o2`, the others from `d`.
fn byte_lanes(o1: &[u8; 16], o2: &[u8; 16], d: &[u8; 16], n: usize, f: impl Fn(u8, u8) -> u8) -> (r: [u8; 16])
    requires
        n <= 16,
        forall|x: u8, y: u8| call_requires(f, (x, y)),
    ensures
        forall|k: int| 0 <= k < n ==> call_ensures(f, (o1@[k], o2@[k]), #[trigger] r@[k]),
        forall|k: int| n <= k < 16 ==> #[trigger] r@[k] == d@[k],
{
    let mut r = *d;
    for k in 0..n
        invariant
            n <= 16,
            forall|x: u8, y: u8| call_requires(f, (x, y)),
            forall|m: int| 0 <= m < k ==> call_ensures(f, (o1@[m], o2@[m]), #[trigger] r@[m]),
            forall|m: int| k <= m < 16 ==> #[trigger] r@[m] == d@[m],
    {
        r[k] = f(o1[k], o2[k]);
    }
    r
}

/// The eight halfword lanes of `f` on `o1` and `o2`.
fn half_lanes(o1: &[u8; 16], o2: &[u8; 16], f: impl Fn(u16, u16) -> u16) -> (r: [u8; 16])
    requires
        forall|x: u16, y: u16| call_requires(f, (x, y)),
    ensures
        forall|k: int| 0 <= k < 8 ==> call_ensures(f, (half_lane(o1@, k), half_lane(o2@, k)), #[trigger] half_lane(r@, k)),
{
    let mut r = [0u8; 16];
    for k in 0..8
        invariant
            forall|x: u16, y: u16| call_requires(f, (x, y)),
            forall|m: int| 0 <= m < k ==> call_ensures(f, (half_lane(o1@, m), half_lane(o2@, m)), #[trigger] half_lane(r@, m)),
    {
        let b = 2 * k;
        let x = ((o1[b] as u16) << 8u16) | (o1[b + 1] as u16);
        let y = ((o2[b] as u16) << 8u16) | (o2[b + 1] as u16);
        let v = f(x, y);
        let ghost before = r@;
        r[b] = #[verifier::truncate] ((v >> 8u16) as u8);
        r[b + 1] = #[verifier::truncate] (v as u8);
        proof {
            assert(((((v >> 8u16) as u8) as u16) << 8u16) | ((v as u8) as u16) == v) by (bit_vector);
            assert(half_lane(r@, k as int) == v);
            assert(x == half_lane(o1@, k as int) && y == half_lane(o2@, k as int));
            assert forall|m: int| 0 <= m < k implies half_lane(r@, m) == half_lane(before, m) by {
                assert(r@[2 * m] == before[2 * m] && r@[2 * m + 1] == before[2 * m + 1]);
            }
            assert forall|m: int| 0 <= m < k + 1 implies call_ensures(f, (half_lane(o1@, m), half_lane(o2@, m)), #[trigger] half_lane(r@, m)) by {
                if m < k {
                    assert(half_lane(r@, m) == half_lane(before, m));
                }
            }
        }
    }
    r
}

/// The four word lanes of `f` on `o1` and `o2`.
fn word_lanes(o1: &[u8; 16], o2: &[u8; 16], f: impl Fn(u32, u32) -> u32) -> (r: [u8; 16])
    requires
        forall|x: u32, y: u32| call_requires(f, (x, y)),
    ensures
        forall|k: int| 0 <= k < 4 ==> call_ensures(f, (word_lane(o1@, k), word_lane(o2@, k)), #[trigger] word_lane(r@, k)),
{
    let mut r = [0u8; 16];
    for k in 0..4
        invariant
            forall|x: u32, y: u32| call_requires(f, (x, y)),
            forall|m: int| 0 <= m < k ==> call_ensures(f, (word_lane(o1@, m), word_lane(o2@, m)), #[trigger] word_lane(r@, m)),
    {
        let b = 4 * k;
        let x = ((o1[b] as u32) << 24u32) | ((o1[b + 1] as u32) << 16u32) | ((o1[b + 2] as u32) << 8u32) | (o1[b
            + 3] as u32);
        let y = ((o2[b] as u32) << 24u32) | ((o2[b + 1] as u32) << 16u32) | ((o2[b + 2] as u32) << 8u32) | (o2[b
            + 3] as u32);
        let v = f(x, y);
        let ghost before = r@;
        r[b] = #[verifier::truncate] ((v >> 24u32) as u8);
        r[b + 1] = #[verifier::truncate] ((v >> 16u32) as u8);
        r[b + 2] = #[verifier::truncate] ((v >> 8u32) as u8);
        r[b + 3] = #[verifier::truncate] (v as u8);
        proof {
            assert(((((v >> 24u32) as u8) as u32) << 24u32) | ((((v >> 16u32) as u8) as u32) << 16u32) | ((((v
                >> 8u32) as u8) as u32) << 8u32) | ((v as u8) as u32) == v) by (bit_vector);
            assert(word_lane(r@, k as int) == v);
            assert(x == word_lane(o1@, k as int) && y == word_lane(o2@, k as int));
            assert forall|m: int| 0 <= m < k implies word_lane(r@, m) == word_lane(before, m) by {
                assert(r@[4 * m] == before[4 * m] && r@[4 * m + 1] == before[4 * m + 1] && r@[4 * m + 2]
                    == before[4 * m + 2] && r@[4 * m + 3] == before[4 * m + 3]);
            }
            assert forall|m: int| 0 <= m < k + 1 implies call_ensures(f, (word_lane(o1@, m), word_lane(o2@, m)), #[trigger] word_lane(r@, m)) by {
                if m < k {
                    assert(word_lane(r@, m) == word_lane(before, m));
                }
            }
        }
    }
    r
}

/// The two doubleword lanes of `f` on `o1` and `o2`.
fn double_lanes(o1: &[u8; 16], o2: &[u8; 16], f: impl Fn(u64, u64) -> u64) -> (r: [u8; 16])
    requires
        forall|x: u64, y: u64| call_requires(f, (x, y)),
    ensures
        forall|k: int| 0 <= k < 2 ==> call_ensures(f, (double_lane(o1@, k), double_lane(o2@, k)), #[trigger] double_lane(r@, k)),
{
    let mut r = [0u8; 16];
    for k in 0..2
        invariant
            forall|x: u64, y: u64| call_requires(f, (x, y)),
            forall|m: int| 0 <= m < k ==> call_ensures(f, (double_lane(o1@, m), double_lane(o2@, m)), #[trigger] double_lane(r@, m)),
    {
        let b = 8 * k;
        let x = ((o1[b] as u64) << 56u64) | ((o1[b + 1] as u64) << 48u64) | ((o1[b + 2] as u64) << 40u64) | ((o1[b
            + 3] as u64) << 32u64) | ((o1[b + 4] as u64) << 24u64) | ((o1[b + 5] as u64) << 16u64) | ((o1[b + 6]
            as u64) << 8u64) | (o1[b + 7] as u64);
        let y = ((o2[b] as u64) << 56u64) | ((o2[b + 1] as u64) << 48u64) | ((o2[b + 2] as u64) << 40u64) | ((o2[b
            + 3] as u64) << 32u64) | ((o2[b + 4] as u64) << 24u64) | ((o2[b + 5] as u64) << 16u64) | ((o2[b + 6]
            as u64) << 8u64) | (o2[b + 7] as u64);
        let v = f(x, y);
        let ghost before = r@;
        r[b] = #[verifier::truncate] ((v >> 56u64) as u8);
        r[b + 1] = #[verifier::truncate] ((v >> 48u64) as u8);
        r[b + 2] = #[verifier::truncate] ((v >> 40u64) as u8);
        r[b + 3] = #[verifier::truncate] ((v >> 32u64) as u8);
        r[b + 4] = #[verifier::truncate] ((v >> 24u64) as u8);
        r[b + 5] = #[verifier::truncate] ((v >> 16u64) as u8);
        r[b + 6] = #[verifier::truncate] ((v >> 8u64) as u8);
        r[b + 7] = #[verifier::truncate] (v as u8);
        proof {
            assert(((((v >> 56u64) as u8) as u64) << 56u64) | ((((v >> 48u64) as u8) as u64) << 48u64) | ((((v
                >> 40u64) as u8) as u64) << 40u64) | ((((v >> 32u64) as u8) as u64) << 32u64) | ((((v >> 24u64)
                as u8) as u64) << 24u64) | ((((v >> 16u64) as u8) as u64) << 16u64) | ((((v >> 8u64) as u8) as u64)
                << 8u64) | ((v as u8) as u64) == v) by (bit_vector);
            assert(double_lane(r@, k as int) == v);
            assert(x == double_lane(o1@, k as int) && y == double_lane(o2@, k as int));
            assert forall|m: int| 0 <= m < k implies double_lane(r@, m) == double_lane(before, m) by {
                assert(r@[8 * m] == before[8 * m] && r@[8 * m + 1] == before[8 * m + 1] && r@[8 * m + 2]
                    == before[8 * m + 2] && r@[8 * m + 3] == before[8 * m + 3] && r@[8 * m + 4] == before[8 * m
                    + 4] && r@[8 * m + 5] == before[8 * m + 5] && r@[8 * m + 6] == before[8 * m + 6] && r@[8 * m
                    + 7] == before[8 * m + 7]);
            }
            assert forall|m: int| 0 <= m < k + 1 implies call_ensures(f, (double_lane(o1@, m), double_lane(o2@, m)), #[trigger] double_lane(r@, m)) by {
                if m < k {
                    assert(double_lane(r@, m) == double_lane(before, m));
                }
            }
        }
    }
    r
}

impl<'ctx> ARMCORTEXA<'ctx> {
    /// Lane-wise arithmetic `dst = src1 op src2` on three SIMD registers in
    /// the same arrangement. Each lane of the destination becomes what the
    /// operation for the lane's width gives on the two source lanes (bytes
    /// for `8b` and `16b`, halfwords for `8h`, words for `4s`, doublewords
    /// for `2d`), and each of its bytes gets the symbolic part `a op b` of
    /// the sources' (for `2d`, only where both sources have one). An `8b`
    /// operation leaves the upper eight bytes, and every operation the
    /// destination's kind, as they were.
    pub fn vector_arithmetic(
        &mut self,
        op_string: &str,
        op_byte: impl Fn(u8, u8) -> u8,
        op_half: impl Fn(u16, u16) -> u16,
        op_word: impl Fn(u32, u32) -> u32,
        op_double: impl Fn(u64, u64) -> u64,
        instruction: &Instruction,
    )
        requires
            old(self).wf(),
            instruction@.operands.len() >= 3,
            arithmetic_vector(instruction@.operands[0]),
            any_vector(instruction@.operands[1]),
            any_vector(instruction@.operands[2]),
            forall|x: u8, y: u8| call_requires(op_byte, (x, y)),
            forall|x: u16, y: u16| call_requires(op_half, (x, y)),
            forall|x: u32, y: u32| call_requires(op_word, (x, y)),
            forall|x: u64, y: u64| call_requires(op_double, (x, y)),
        ensures
            final(self).wf(),
            final(self).same_but_registers(old(self)),
            final(self).regs() == old(self).regs(),
            final(self).vregs() == old(self).vregs().update(
                simd_index(instruction@.operands[0]),
                final(self).vregs()[simd_index(instruction@.operands[0])],
            ),
            ({
                let ops = instruction@.operands;
                let a = vector_arrangement(ops[0]);
                let new = final(self).vregs()[simd_index(ops[0])];
                let s1 = old(self).vregs()[simd_index(ops[1])];
                let s2 = old(self).vregs()[simd_index(ops[2])];
                &&& lane_parts_set(new, old(self).vregs()[simd_index(ops[0])], s1, s2, a, op_string@)
                &&& (a == Arrangement::B8 || a == Arrangement::B16) ==> forall|k: int|
                    0 <= k < lane_bytes(a) ==> call_ensures(op_byte, (s1.offset[k], s2.offset[k]), #[trigger] new.offset[k])
                &&& a == Arrangement::H8 ==> forall|k: int|
                    0 <= k < 8 ==> call_ensures(
                        op_half,
                        (half_lane(s1.offset, k), half_lane(s2.offset, k)),
                        #[trigger] half_lane(new.offset, k),
                    )
                &&& a == Arrangement::S4 ==> forall|k: int|
                    0 <= k < 4 ==> call_ensures(
                        op_word,
                        (word_lane(s1.offset, k), word_lane(s2.offset, k)),
                        #[trigger] word_lane(new.offset, k),
                    )
                &&& a == Arrangement::D2 ==> forall|k: int|
                    0 <= k < 2 ==> call_ensures(
                        op_double,
                        (double_lane(s1.offset, k), double_lane(s2.offset, k)),
                        #[trigger] double_lane(new.offset, k),
                    )
            }),
    {
        let ghost ops = instruction@.operands;
        assert(ops[0] == instruction.operands@[0]@ && ops[1] == instruction.operands@[1]@ && ops[2]
            == instruction.operands@[2]@);
        let a = match &instruction.operands[0] {
            Operand::Vector(_, _, a) => *a,
            _ => Arrangement::B16,
        };
        let mut r0 = self.get_simd_register(&instruction.operands[0]);
        let r1 = self.get_simd_register(&instruction.operands[1]);
        let r2 = self.get_simd_register(&instruction.operands[2]);
        let ghost d = r0@;
        let both_needed = a == Arrangement::D2;
        let nbytes: usize = if a == Arrangement::B8 {
            8
        } else {
            16
        };
        for j in 0..nbytes
            invariant
                nbytes == lane_bytes(a),
                both_needed == (a == Arrangement::D2),
                r0.kind == d.kind,
                r0.offset@ == d.offset,
                forall|m: int| 0 <= m < j ==> opt_model(#[trigger] r0.base@[m]) == lane_base(op_string@, a, r1@.base[m], r2@.base[m]),
                forall|m: int| j <= m < 16 ==> opt_model(#[trigger] r0.base@[m]) == d.base[m],
        {
            let nb = if both_needed && !(r1.base[j].is_some() && r2.base[j].is_some()) {
                None
            } else {
                generate_expression_from_options(op_string, copy_option(&r1.base[j]), copy_option(&r2.base[j]))
            };
            r0.base[j] = nb;
        }
        let off = if a == Arrangement::D2 {
            double_lanes(&r1.offset, &r2.offset, op_double)
        } else if a == Arrangement::S4 {
            word_lanes(&r1.offset, &r2.offset, op_word)
        } else if a == Arrangement::H8 {
            half_lanes(&r1.offset, &r2.offset, op_half)
        } else {
            byte_lanes(&r1.offset, &r2.offset, &r0.offset, nbytes, op_byte)
        };
        r0.offset = off;
        let ghost new = r0@;
        proof {
            assert forall|m: int| 0 <= m < 16 implies #[trigger] new.base[m] == if m < lane_bytes(a) {
                lane_base(op_string@, a, r1@.base[m], r2@.base[m])
            } else {
                d.base[m]
            } by {}
        }
        self.set_simd_register(&instruction.operands[0], r0);
        proof {
            assert(self.vregs()[simd_index(ops[0])] == new);
        }
    }

    /// Whether a SIMD arithmetic instruction can run in this state.
    pub open spec fn simd_arith_defined(&self, op: Seq<char>, ops: Seq<OperandModel>) -> bool {
        if op == "rev64"@ {
            &&& ops.len() >= 2
            &&& simd_operand(ops[0]) && simd_operand(ops[1])
            &&& ops[0] matches OperandModel::Vector(_, _, a) ==> (a == Arrangement::H8 || a == Arrangement::B16)
        } else if op == "and"@ || op == "add"@ || op == "orr"@ || op == "eor"@ || op == "mul"@ || op == "sub"@ {
            ops.len() >= 3 && arithmetic_vector(ops[0]) && any_vector(ops[1]) && any_vector(ops[2])
        } else if op == "movi"@ || op == "mov"@ || op == "fmov"@ {
            ops.len() >= 2 && simd_operand(ops[0]) && simd_operand(ops[1])
        } else if op == "shl"@ {
            &&& ops.len() >= 3
            &&& simd_operand(ops[0])
            &&& ops[1] matches OperandModel::Vector(_, n, a) && n < 32 && a == Arrangement::D2
            &&& ops[2] matches OperandModel::Immediate(s) && 0 <= s <= u32::MAX
        } else {
            false
        }
    }

    /// What a SIMD arithmetic instruction does: `rev64` writes the bytes
    /// (or, for `8h`, the halfwords) of its source to its destination in
    /// reverse order (see `rev64_done`); a lane-wise operation writes its
    /// destination (see `lanes_computed`); a move copies one SIMD register
    /// into another; `shl` shifts the doublewords of its source into its
    /// destination.
    pub open spec fn simd_arith_executed(
        &self,
        old: &Self,
        op: Seq<char>,
        ops: Seq<OperandModel>,
        r: Result<crate::common::ExecuteModel, Seq<char>>,
    ) -> bool {
        &&& r == proceed()
        &&& if op == "rev64"@ {
            let n = simd_index(ops[0]);
            &&& self.same_but_registers(old)
            &&& self.regs() == old.regs()
            &&& self.vregs() == old.vregs().update(n, self.vregs()[n])
            &&& rev64_done(
                self.vregs()[n],
                old.vregs()[n],
                old.vregs()[simd_index(ops[1])],
                ops[0] matches OperandModel::Vector(_, _, a) && a == Arrangement::H8,
                ops[0] is VectorRegister,
            )
        } else if is_lane_op(op) {
            let n = simd_index(ops[0]);
            &&& self.same_but_registers(old)
            &&& self.regs() == old.regs()
            &&& self.vregs() == old.vregs().update(n, self.vregs()[n])
            &&& lanes_computed(
                self.vregs()[n],
                old.vregs()[n],
                old.vregs()[simd_index(ops[1])],
                old.vregs()[simd_index(ops[2])],
                vector_arrangement(ops[0]),
                lane_op_of(op),
            )
        } else if op == "movi"@ || op == "mov"@ || op == "fmov"@ {
            &&& self.same_but_registers(old)
            &&& self.regs() == old.regs()
            &&& self.vregs() == old.vregs().update(simd_index(ops[0]), old.vregs()[simd_index(ops[1])])
        } else {
            let s = match ops[2] {
                OperandModel::Immediate(v) => v as u32,
                _ => 0,
            };
            &&& self.same_but_registers(old)
            &&& self.regs() == old.regs()
            &&& self.vregs() == old.vregs().update(
                simd_index(ops[0]),
                shl_lanes(old.vregs()[simd_index(ops[0])], old.vregs()[simd_index(ops[1])], s),
            )
        }
    }

    /// Runs a SIMD arithmetic instruction (see `simd_arith_executed`).
    pub(crate) fn execute_simd_arithmetic(&mut self, instruction: &Instruction) -> (r: Result<crate::common::ExecuteReturnType, String>)
        requires
            old(self).wf(),
            old(self).simd_arith_defined(instruction@.opcode, instruction@.operands),
        ensures
            final(self).wf(),
            final(self).simd_arith_executed(old(self), instruction@.opcode, instruction@.operands, result_model(r)),
    {
        let op = &instruction.opcode;
        let operands = &instruction.operands;
        let ghost ops = instruction@.operands;
        assert(ops.len() == operands@.len());
        assert(ops[0] == operands@[0]@ && ops[1] == operands@[1]@);
        if operands.len() > 2 {
            assert(ops[2] == operands@[2]@);
        }
        if crate::common::text_is(op, "rev64") {
            let mut dest = self.get_simd_register(&operands[0]);
            let src = self.get_simd_register(&operands[1]);
            let ghost d = dest@;
            let h8 = match &operands[0] {
                Operand::Vector(_, _, a) => *a == Arrangement::H8,
                _ => false,
            };
            let whole = match &operands[0] {
                Operand::VectorRegister(..) => true,
                _ => false,
            };
            if whole {
                dest.kind = src.kind;
            }
            for j in 0..16
                invariant
                    dest.kind == (if whole {
                        src@.kind
                    } else {
                        d.kind
                    }),
                    forall|m: int| 0 <= m < j ==> #[trigger] opt_model(dest.base@[m]) == src@.base[rev64_source(h8, m)],
                    forall|m: int| 0 <= m < j ==> #[trigger] dest.offset@[m] == src@.offset[rev64_source(h8, m)],
            {
                let k: usize = if !h8 {
                    15 - j
                } else if j % 2 == 0 {
                    14 - j
                } else {
                    16 - j
                };
                dest.base[j] = copy_option(&src.base[k]);
                dest.offset[j] = src.offset[k];
            }
            proof {
                assert forall|m: int| 0 <= m < 16 implies #[trigger] dest@.base[m] == src@.base[rev64_source(h8, m)] by {}
            }
            self.set_simd_register(&operands[0], dest);
        } else if crate::common::text_is(op, "and") || crate::common::text_is(op, "add") || crate::common::text_is(
            op,
            "orr",
        ) || crate::common::text_is(op, "eor") || crate::common::text_is(op, "mul") || crate::common::text_is(
            op,
            "sub",
        ) {
            let (k, sym) = if crate::common::text_is(op, "and") {
                (LaneOp::And, "&")
            } else if crate::common::text_is(op, "add") {
                (LaneOp::Add, "+")
            } else if crate::common::text_is(op, "orr") {
                (LaneOp::Orr, "|")
            } else if crate::common::text_is(op, "eor") {
                (LaneOp::Eor, "^")
            } else if crate::common::text_is(op, "mul") {
                (LaneOp::Mul, "*")
            } else {
                (LaneOp::Sub, "-")
            };
            assert(k == lane_op_of(op@) && sym@ == lane_symbol(k));
            let f_u8 = |x: u8, y: u8| -> (r: u8) ensures r == lane_u8(k, x, y) { apply_u8(k, x, y) };
            let f_u16 = |x: u16, y: u16| -> (r: u16) ensures r == lane_u16(k, x, y) { apply_u16(k, x, y) };
            let f_u32 = |x: u32, y: u32| -> (r: u32) ensures r == lane_u32(k, x, y) { apply_u32(k, x, y) };
            let f_u64 = |x: u64, y: u64| -> (r: u64) ensures r == lane_u64(k, x, y) { apply_u64(k, x, y) };
            self.vector_arithmetic(
                sym,
                f_u8,
                f_u16,
                f_u32,
                f_u64,
                instruction,
            );
        } else if crate::common::text_is(op, "movi") || crate::common::text_is(op, "mov") || crate::common::text_is(
            op,
            "fmov",
        ) {
            let src = self.get_simd_register(&operands[1]);
            self.set_simd_register(&operands[0], src);
        } else {
            let mut dst_reg = self.get_simd_register(&operands[0]);
            let src_reg = self.get_simd_register(&operands[1]);
            let small_shift: u32 = match &operands[2] {
                Operand::Immediate(s) => immediate_shift(*s),
                _ => 0,
            };
            let ghost d0 = dst_reg@;
            let (bases0, offsets0) = src_reg.get_double(0);
            let shifted0 = be_value8(&offsets0).wrapping_shl(small_shift);
            dst_reg.set_double(0, bases0, be_bytes8(shifted0));
            let (bases1, offsets1) = src_reg.get_double(1);
            let shifted1 = be_value8(&offsets1).wrapping_shl(small_shift);
            dst_reg.set_double(1, bases1, be_bytes8(shifted1));
            proof {
                let want = shl_lanes(d0, src_reg@, small_shift);
                assert(dst_reg@.base =~= want.base);
                assert(dst_reg@.offset =~= want.offset);
            }
            self.set_simd_register(&operands[0], dst_reg);
        }
        Ok(crate::common::ExecuteReturnType::Next)
    }
}

/// A shift amount that fits 32 bits.
fn immediate_shift(s: i64) -> (r: u32)
    requires
        0 <= s <= u32::MAX,
    ensures
        r == s as u32,
{
    s as u32
}


/// The vector operands of `ops`, in order.
pub open spec fn vector_list(ops: Seq<OperandModel>) -> Seq<OperandModel>
    decreases ops.len(),
{
    if ops.len() == 0 {
        Seq::empty()
    } else if ops.last() is Vector {
        vector_list(ops.drop_last()).push(ops.last())
    } else {
        vector_list(ops.drop_last())
    }
}

/// The last memory operand of `ops`.
pub open spec fn last_memory(ops: Seq<OperandModel>) -> Option<OperandModel>
    decreases ops.len(),
{
    if ops.len() == 0 {
        None
    } else if ops.last() is Memory {
        Some(ops.last())
    } else {
        last_memory(ops.drop_last())
    }
}

/// The parts of a memory operand: base register file and number, offset
/// and post-indexing.
pub open spec fn memory_parts(o: OperandModel) -> (crate::instruction_parser::RePrefix, usize, i64, Option<bool>) {
    match o {
        OperandModel::Memory(p, n, off, _, idx) => (
            p,
            n,
            match off {
                Some(v) => v,
                None => 0,
            },
            idx,
        ),
        _ => (crate::instruction_parser::RePrefix::X, 0, 0, None),
    }
}

impl<'ctx> ARMCORTEXA<'ctx> {
    /// The loads (or stores) of the vector operands `ds` at the address `a`
    /// that a multiple-register instruction has made so far, from
    /// `states[0]`: the check of each answered `outs[j]`, and each one
    /// before the last was allowed.
    pub open spec fn vector_steps_made(
        states: Seq<Self>,
        outs: Seq<Option<Seq<char>>>,
        ds: Seq<OperandModel>,
        a: RegisterModel,
        store: bool,
    ) -> bool {
        &&& states.len() == outs.len() + 1
        &&& outs.len() <= ds.len()
        &&& forall|j: int|
            0 <= j < outs.len() ==> #[trigger] Self::vector_step(states[j + 1], states[j], ds[j], a, outs[j], store)
        &&& forall|j: int| 0 <= j < outs.len() - 1 ==> (#[trigger] outs[j]) is None
    }

    /// One load (or store) of `d` at `a` from `prev` to `next`, whose check
    /// answered `o`.
    pub open spec fn vector_step(next: Self, prev: Self, d: OperandModel, a: RegisterModel, o: Option<Seq<char>>, store: bool) -> bool {
        if store {
            next.store_step(&prev, d, a, o)
        } else {
            next.load_step(&prev, d, a, o)
        }
    }

    /// All the loads (or stores) of a multiple-register instruction: they
    /// went on until one was refused, or all were made.
    pub open spec fn vector_steps(
        states: Seq<Self>,
        outs: Seq<Option<Seq<char>>>,
        ds: Seq<OperandModel>,
        a: RegisterModel,
        store: bool,
    ) -> bool {
        &&& Self::vector_steps_made(states, outs, ds, a, store)
        &&& outs.len() < ds.len() ==> (outs.len() > 0 && outs.last() is Some)
    }

    /// Whether a SIMD load or store instruction can run in this state:
    /// `ld1r` loads one register from the address in a register; `ld1` and
    /// `st1` load or store each of their vector operands at the address in
    /// the base register of their (last) memory operand, which must give an
    /// offset, and with post-indexing add it to that register after.
    pub open spec fn simd_memory_defined(&self, op: Seq<char>, ops: Seq<OperandModel>) -> bool {
        if op == "ld1r"@ {
            ops.len() >= 2 && readable(ops[1]) && load_ok(self, ops[0], self.read(ops[1]))
        } else if op == "ld1"@ || op == "st1"@ {
            let (p, n, off, idx) = memory_parts(last_memory(ops)->0);
            let base = OperandModel::Register(p, n);
            let a = self.read(base);
            let ds = vector_list(ops);
            &&& forall|j: int| 0 <= j < ops.len() ==> (#[trigger] ops[j] is Vector || ops[j] is Memory)
            &&& last_memory(ops) matches Some(OperandModel::Memory(_, _, Some(_), _, _))
            &&& readable(base)
            &&& forall|j: int|
                0 <= j < ds.len() ==> if op == "ld1"@ {
                    load_ok(self, #[trigger] ds[j], a)
                } else {
                    crate::computer::memory::store_ok(self, ds[j], a)
                }
            &&& idx == Some(true) ==> crate::computer::write_target(base) is Some
        } else {
            false
        }
    }

    /// What a SIMD load or store instruction does.
    pub open spec fn simd_memory_executed(
        &self,
        old: &Self,
        op: Seq<char>,
        ops: Seq<OperandModel>,
        r: Result<crate::common::ExecuteModel, Seq<char>>,
    ) -> bool {
        if op == "ld1r"@ {
            exists|o: Option<Seq<char>>| #[trigger] self.load_step(old, ops[0], old.read(ops[1]), o) && r == checked(o)
        } else {
            let parts = memory_parts(last_memory(ops)->0);
            let base = OperandModel::Register(parts.0, parts.1);
            self.vector_memory_done(old, vector_list(ops), r, old.read(base), base, parts.2, parts.3, op == "st1"@)
        }
    }

    /// What `ld1` or `st1` of the vector operands `ds` at the address `a`
    /// in `base` has done: the loads or stores went on until one was
    /// refused, whose message is the result; where none was, the offset
    /// `off` is added to `base` with post-indexing.
    pub open spec fn vector_memory_done(
        &self,
        old: &Self,
        ds: Seq<OperandModel>,
        r: Result<crate::common::ExecuteModel, Seq<char>>,
        a: RegisterModel,
        base: OperandModel,
        off: i64,
        idx: Option<bool>,
        store: bool,
    ) -> bool {
        exists|states: Seq<Self>, outs: Seq<Option<Seq<char>>>|
            #[trigger] Self::vector_steps(states, outs, ds, a, store) && states[0] == *old && if outs.len() > 0
                && outs.last() is Some {
                *self == states.last() && r == crate::computer::instructions::refused(outs.last()->0)
            } else {
                r == proceed() && if idx == Some(true) {
                    self.written(&states.last(), base, a.kind, a.base, vstd::wrapping::i64_specs::wrapping_add(a.offset, off))
                } else {
                    *self == states.last()
                }
            }
    }

    /// Runs a SIMD load or store instruction (see `simd_memory_executed`).
    pub(crate) fn execute_simd_memory(&mut self, instruction: &Instruction) -> (r: Result<crate::common::ExecuteReturnType, String>)
        requires
            old(self).wf(),
            old(self).regions_ok(),
            old(self).simd_memory_defined(instruction@.opcode, instruction@.operands),
        ensures
            final(self).wf(),
            final(self).regions_ok(),
            final(self).simd_memory_executed(old(self), instruction@.opcode, instruction@.operands, result_model(r)),
    {
        let op = &instruction.opcode;
        let operands = &instruction.operands;
        let ghost ops = instruction@.operands;
        assert(ops.len() == operands@.len());
        if crate::common::text_is(op, "ld1r") {
            assert(ops[0] == operands@[0]@ && ops[1] == operands@[1]@);
            let addr = self.get_register(&operands[1]);
            let res = self.load_vector(copy_operand(&operands[0]), addr);
            return match res {
                Err(e) => Err(e.to_string()),
                Ok(()) => Ok(crate::common::ExecuteReturnType::Next),
            };
        }
        let store = crate::common::text_is(op, "st1");
        let mut dests: Vec<usize> = Vec::new();
        let mut addr: Option<usize> = None;
        let mut i: usize = 0;
        while i < operands.len()
            invariant
                i <= operands@.len(),
                ops == operands_view(operands@),
                dests@.len() == vector_list(ops.take(i as int)).len(),
                forall|j: int|
                    0 <= j < dests@.len() ==> (#[trigger] dests@[j]) < i && ops[dests@[j] as int] == vector_list(
                        ops.take(i as int),
                    )[j],
                match addr {
                    Some(m) => m < i && last_memory(ops.take(i as int)) == Some(ops[m as int]),
                    None => last_memory(ops.take(i as int)) is None,
                },
            decreases operands@.len() - i,
        {
            let ghost t1 = ops.take(i + 1);
            assert(t1.drop_last() =~= ops.take(i as int));
            assert(t1.last() == ops[i as int]);
            assert(ops[i as int] == operands@[i as int]@);
            match &operands[i] {
                Operand::Vector(..) => {
                    dests.push(i);
                },
                Operand::Memory(..) => {
                    addr = Some(i);
                },
                _ => {},
            }
            i = i + 1;
        }
        assert(ops.take(operands@.len() as int) =~= ops);
        let m = match addr {
            Some(m) => m,
            None => 0,
        };
        assert(ops[m as int] == operands@[m as int]@);
        let (prefix, num, offset, index) = match &operands[m] {
            Operand::Memory(p, n, o, _, idx) => (
                *p,
                *n,
                match o {
                    Some(v) => *v,
                    None => 0,
                },
                *idx,
            ),
            _ => (crate::instruction_parser::RePrefix::X, 0, 0, None),
        };
        assert(last_memory(ops) == Some(ops[m as int]));
        assert((prefix, num, offset, index) == memory_parts(last_memory(ops)->0));
        let base = Operand::Register(prefix, num);
        let a = self.get_register(&base);
        let ghost ds = vector_list(ops);
        let ghost mut states: Seq<Self> = seq![*self];
        let ghost mut outs: Seq<Option<Seq<char>>> = Seq::empty();
        let mut k: usize = 0;
        while k < dests.len()
            invariant
                self.wf(),
                self.regions_ok(),
                ops == operands_view(operands@),
                ops == instruction@.operands,
                ds == vector_list(ops),
                dests@.len() == ds.len(),
                forall|j: int| 0 <= j < dests@.len() ==> (#[trigger] dests@[j]) < operands@.len() && ops[dests@[j] as int] == ds[j],
                store == (instruction@.opcode == "st1"@),
                (prefix, num, offset, index) == memory_parts(last_memory(ops)->0),
                a@ == old(self).read(base@),
                base@ == OperandModel::Register(memory_parts(last_memory(ops)->0).0, memory_parts(last_memory(ops)->0).1),
                old(self).simd_memory_defined(instruction@.opcode, ops),
                !(instruction@.opcode == "ld1r"@),
                self.region_names() == old(self).region_names(),
                self.memory_labels@ == old(self).memory_labels@,
                k <= dests@.len(),
                states.len() == k + 1,
                outs.len() == k,
                states[0] == *old(self),
                states.last() == *self,
                forall|j: int| 0 <= j < k ==> (#[trigger] outs[j]) is None,
                Self::vector_steps_made(states, outs, ds, a@, store),
            decreases dests@.len() - k,
        {
            let d = copy_operand(&operands[dests[k]]);
            let ghost before = *self;
            let res = if store {
                self.store_vector(d, crate::common::copy_register(&a))
            } else {
                self.load_vector(d, crate::common::copy_register(&a))
            };
            proof {
                self.lemma_step_keeps_names(&before, ds[k as int], a@, outcome(res), store);
                let st0 = states;
                let out0 = outs;
                states = states.push(*self);
                outs = outs.push(outcome(res));
                assert(Self::vector_step(states[k + 1], states[k as int], ds[k as int], a@, outs[k as int], store));
                assert forall|j: int| 0 <= j < outs.len() implies #[trigger] Self::vector_step(
                    states[j + 1],
                    states[j],
                    ds[j],
                    a@,
                    outs[j],
                    store,
                ) by {
                    if j < k {
                        assert(states[j] == st0[j] && states[j + 1] == st0[j + 1] && outs[j] == out0[j]);
                        assert(Self::vector_step(st0[j + 1], st0[j], ds[j], a@, out0[j], store));
                    }
                }
            }
            match res {
                Err(e) => {
                    let msg = e.to_string();
                    proof {
                        assert(Self::vector_steps(states, outs, vector_list(ops), a@, store));
                        assert(outs.last() == Some(e.message()));
                    }
                    return Err(msg);
                },
                Ok(()) => {},
            }
            k = k + 1;
        }
        assert(Self::vector_steps(states, outs, vector_list(ops), a@, store));
        let ghost last = *self;
        match index {
            Some(true) => {
                self.set_register(&base, a.kind, a.base, a.offset.wrapping_add(offset));
            },
            _ => {},
        }
        assert(states.last() == last);
        assert(self.vector_memory_done(old(self), ds, proceed(), a@, base@, offset, index, store));
        Ok(crate::common::ExecuteReturnType::Next)
    }
}

/// Halfword lane `k` of the bytes `s` as a number, most significant byte
/// first.
pub open spec fn half_number(s: Seq<u8>, k: int) -> int {
    256 * s[2 * k] + s[2 * k + 1]
}

/// Word lane `k` of the bytes `s` as a number, most significant byte first.
pub open spec fn word_number(s: Seq<u8>, k: int) -> int {
    0x100_0000 * s[4 * k] + 0x1_0000 * s[4 * k + 1] + 0x100 * s[4 * k + 2] + s[4 * k + 3]
}

/// Doubleword lane `k` of the bytes `s` as a number, most significant byte
/// first.
pub open spec fn double_number(s: Seq<u8>, k: int) -> int {
    0x100_0000_0000_0000 * s[8 * k] + 0x1_0000_0000_0000 * s[8 * k + 1] + 0x100_0000_0000 * s[8 * k + 2]
        + 0x1_0000_0000 * s[8 * k + 3] + 0x100_0000 * s[8 * k + 4] + 0x1_0000 * s[8 * k + 5] + 0x100 * s[8
        * k + 6] + s[8 * k + 7]
}

proof fn lemma_half_number(b0: u8, b1: u8)
    ensures
        (((b0 as u16) << 8u16) | (b1 as u16)) as int == 256 * b0 + b1,
{
    assert((((b0 as u16) << 8u16) | (b1 as u16)) as int == 256 * b0 + b1) by (bit_vector);
}

proof fn lemma_half_and_bytes(a0: u8, a1: u8, b0: u8, b1: u8, c0: u8, c1: u8)
    requires
        (((a0 as u16) << 8u16) | (a1 as u16)) == (((b0 as u16) << 8u16) | (b1 as u16)) & (((c0 as u16) << 8u16) | (c1 as u16)),
    ensures
        a0 == b0 & c0 && a1 == b1 & c1,
{
    assert(a0 == b0 & c0 && a1 == b1 & c1) by (bit_vector)
        requires
            (((a0 as u16) << 8u16) | (a1 as u16)) == (((b0 as u16) << 8u16) | (b1 as u16)) & (((c0 as u16) << 8u16) | (c1 as u16)),
    ;
}

proof fn lemma_half_orr_bytes(a0: u8, a1: u8, b0: u8, b1: u8, c0: u8, c1: u8)
    requires
        (((a0 as u16) << 8u16) | (a1 as u16)) == (((b0 as u16) << 8u16) | (b1 as u16)) | (((c0 as u16) << 8u16) | (c1 as u16)),
    ensures
        a0 == b0 | c0 && a1 == b1 | c1,
{
    assert(a0 == b0 | c0 && a1 == b1 | c1) by (bit_vector)
        requires
            (((a0 as u16) << 8u16) | (a1 as u16)) == (((b0 as u16) << 8u16) | (b1 as u16)) | (((c0 as u16) << 8u16) | (c1 as u16)),
    ;
}

proof fn lemma_half_eor_bytes(a0: u8, a1: u8, b0: u8, b1: u8, c0: u8, c1: u8)
    requires
        (((a0 as u16) << 8u16) | (a1 as u16)) == (((b0 as u16) << 8u16) | (b1 as u16)) ^ (((c0 as u16) << 8u16) | (c1 as u16)),
    ensures
        a0 == b0 ^ c0 && a1 == b1 ^ c1,
{
    assert(a0 == b0 ^ c0 && a1 == b1 ^ c1) by (bit_vector)
        requires
            (((a0 as u16) << 8u16) | (a1 as u16)) == (((b0 as u16) << 8u16) | (b1 as u16)) ^ (((c0 as u16) << 8u16) | (c1 as u16)),
    ;
}

proof fn lemma_word_number(b0: u8, b1: u8, b2: u8, b3: u8)
    ensures
        (((b0 as u32) << 24u32) | ((b1 as u32) << 16u32) | ((b2 as u32) << 8u32) | (b3 as u32)) as int == 16777216 * b0 + 65536 * b1 + 256 * b2 + b3,
{
    assert((((b0 as u32) << 24u32) | ((b1 as u32) << 16u32) | ((b2 as u32) << 8u32) | (b3 as u32)) as int == 16777216 * b0 + 65536 * b1 + 256 * b2 + b3) by (bit_vector);
}

proof fn lemma_word_and_bytes(a0: u8, a1: u8, a2: u8, a3: u8, b0: u8, b1: u8, b2: u8, b3: u8, c0: u8, c1: u8, c2: u8, c3: u8)
    requires
        (((a0 as u32) << 24u32) | ((a1 as u32) << 16u32) | ((a2 as u32) << 8u32) | (a3 as u32)) == (((b0 as u32) << 24u32) | ((b1 as u32) << 16u32) | ((b2 as u32) << 8u32) | (b3 as u32)) & (((c0 as u32) << 24u32) | ((c1 as u32) << 16u32) | ((c2 as u32) << 8u32) | (c3 as u32)),
    ensures
        a0 == b0 & c0 && a1 == b1 & c1 && a2 == b2 & c2 && a3 == b3 & c3,
{
    assert(a0 == b0 & c0 && a1 == b1 & c1 && a2 == b2 & c2 && a3 == b3 & c3) by (bit_vector)
        requires
            (((a0 as u32) << 24u32) | ((a1 as u32) << 16u32) | ((a2 as u32) << 8u32) | (a3 as u32)) == (((b0 as u32) << 24u32) | ((b1 as u32) << 16u32) | ((b2 as u32) << 8u32) | (b3 as u32)) & (((c0 as u32) << 24u32) | ((c1 as u32) << 16u32) | ((c2 as u32) << 8u32) | (c3 as u32)),
    ;
}

proof fn lemma_word_orr_bytes(a0: u8, a1: u8, a2: u8, a3: u8, b0: u8, b1: u8, b2: u8, b3: u8, c0: u8, c1: u8, c2: u8, c3: u8)
    requires
        (((a0 as u32) << 24u32) | ((a1 as u32) << 16u32) | ((a2 as u32) << 8u32) | (a3 as u32)) == (((b0 as u32) << 24u32) | ((b1 as u32) << 16u32) | ((b2 as u32) << 8u32) | (b3 as u32)) | (((c0 as u32) << 24u32) | ((c1 as u32) << 16u32) | ((c2 as u32) << 8u32) | (c3 as u32)),
    ensures
        a0 == b0 | c0 && a1 == b1 | c1 && a2 == b2 | c2 && a3 == b3 | c3,
{
    assert(a0 == b0 | c0 && a1 == b1 | c1 && a2 == b2 | c2 && a3 == b3 | c3) by (bit_vector)
        requires
            (((a0 as u32) << 24u32) | ((a1 as u32) << 16u32) | ((a2 as u32) << 8u32) | (a3 as u32)) == (((b0 as u32) << 24u32) | ((b1 as u32) << 16u32) | ((b2 as u32) << 8u32) | (b3 as u32)) | (((c0 as u32) << 24u32) | ((c1 as u32) << 16u32) | ((c2 as u32) << 8u32) | (c3 as u32)),
    ;
}

proof fn lemma_word_eor_bytes(a0: u8, a1: u8, a2: u8, a3: u8, b0: u8, b1: u8, b2: u8, b3: u8, c0: u8, c1: u8, c2: u8, c3: u8)
    requires
        (((a0 as u32) << 24u32) | ((a1 as u32) << 16u32) | ((a2 as u32) << 8u32) | (a3 as u32)) == (((b0 as u32) << 24u32) | ((b1 as u32) << 16u32) | ((b2 as u32) << 8u32) | (b3 as u32)) ^ (((c0 as u32) << 24u32) | ((c1 as u32) << 16u32) | ((c2 as u32) << 8u32) | (c3 as u32)),
    ensures
        a0 == b0 ^ c0 && a1 == b1 ^ c1 && a2 == b2 ^ c2 && a3 == b3 ^ c3,
{
    assert(a0 == b0 ^ c0 && a1 == b1 ^ c1 && a2 == b2 ^ c2 && a3 == b3 ^ c3) by (bit_vector)
        requires
            (((a0 as u32) << 24u32) | ((a1 as u32) << 16u32) | ((a2 as u32) << 8u32) | (a3 as u32)) == (((b0 as u32) << 24u32) | ((b1 as u32) << 16u32) | ((b2 as u32) << 8u32) | (b3 as u32)) ^ (((c0 as u32) << 24u32) | ((c1 as u32) << 16u32) | ((c2 as u32) << 8u32) | (c3 as u32)),
    ;
}

proof fn lemma_double_number(b0: u8, b1: u8, b2: u8, b3: u8, b4: u8, b5: u8, b6: u8, b7: u8)
    ensures
        (((b0 as u64) << 56u64) | ((b1 as u64) << 48u64) | ((b2 as u64) << 40u64) | ((b3 as u64) << 32u64) | ((b4 as u64) << 24u64) | ((b5 as u64) << 16u64) | ((b6 as u64) << 8u64) | (b7 as u64)) as int == 72057594037927936 * b0 + 281474976710656 * b1 + 1099511627776 * b2 + 4294967296 * b3 + 16777216 * b4 + 65536 * b5 + 256 * b6 + b7,
{
    assert((((b0 as u64) << 56u64) | ((b1 as u64) << 48u64) | ((b2 as u64) << 40u64) | ((b3 as u64) << 32u64) | ((b4 as u64) << 24u64) | ((b5 as u64) << 16u64) | ((b6 as u64) << 8u64) | (b7 as u64)) as int == 72057594037927936 * b0 + 281474976710656 * b1 + 1099511627776 * b2 + 4294967296 * b3 + 16777216 * b4 + 65536 * b5 + 256 * b6 + b7) by (bit_vector);
}

proof fn lemma_double_and_bytes(a0: u8, a1: u8, a2: u8, a3: u8, a4: u8, a5: u8, a6: u8, a7: u8, b0: u8, b1: u8, b2: u8, b3: u8, b4: u8, b5: u8, b6: u8, b7: u8, c0: u8, c1: u8, c2: u8, c3: u8, c4: u8, c5: u8, c6: u8, c7: u8)
    requires
        (((a0 as u64) << 56u64) | ((a1 as u64) << 48u64) | ((a2 as u64) << 40u64) | ((a3 as u64) << 32u64) | ((a4 as u64) << 24u64) | ((a5 as u64) << 16u64) | ((a6 as u64) << 8u64) | (a7 as u64)) == (((b0 as u64) << 56u64) | ((b1 as u64) << 48u64) | ((b2 as u64) << 40u64) | ((b3 as u64) << 32u64) | ((b4 as u64) << 24u64) | ((b5 as u64) << 16u64) | ((b6 as u64) << 8u64) | (b7 as u64)) & (((c0 as u64) << 56u64) | ((c1 as u64) << 48u64) | ((c2 as u64) << 40u64) | ((c3 as u64) << 32u64) | ((c4 as u64) << 24u64) | ((c5 as u64) << 16u64) | ((c6 as u64) << 8u64) | (c7 as u64)),
    ensures
        a0 == b0 & c0 && a1 == b1 & c1 && a2 == b2 & c2 && a3 == b3 & c3 && a4 == b4 & c4 && a5 == b5 & c5 && a6 == b6 & c6 && a7 == b7 & c7,
{
    assert(a0 == b0 & c0 && a1 == b1 & c1 && a2 == b2 & c2 && a3 == b3 & c3 && a4 == b4 & c4 && a5 == b5 & c5 && a6 == b6 & c6 && a7 == b7 & c7) by (bit_vector)
        requires
            (((a0 as u64) << 56u64) | ((a1 as u64) << 48u64) | ((a2 as u64) << 40u64) | ((a3 as u64) << 32u64) | ((a4 as u64) << 24u64) | ((a5 as u64) << 16u64) | ((a6 as u64) << 8u64) | (a7 as u64)) == (((b0 as u64) << 56u64) | ((b1 as u64) << 48u64) | ((b2 as u64) << 40u64) | ((b3 as u64) << 32u64) | ((b4 as u64) << 24u64) | ((b5 as u64) << 16u64) | ((b6 as u64) << 8u64) | (b7 as u64)) & (((c0 as u64) << 56u64) | ((c1 as u64) << 48u64) | ((c2 as u64) << 40u64) | ((c3 as u64) << 32u64) | ((c4 as u64) << 24u64) | ((c5 as u64) << 16u64) | ((c6 as u64) << 8u64) | (c7 as u64)),
    ;
}

proof fn lemma_double_orr_bytes(a0: u8, a1: u8, a2: u8, a3: u8, a4: u8, a5: u8, a6: u8, a7: u8, b0: u8, b1: u8, b2: u8, b3: u8, b4: u8, b5: u8, b6: u8, b7: u8, c0: u8, c1: u8, c2: u8, c3: u8, c4: u8, c5: u8, c6: u8, c7: u8)
    requires
        (((a0 as u64) << 56u64) | ((a1 as u64) << 48u64) | ((a2 as u64) << 40u64) | ((a3 as u64) << 32u64) | ((a4 as u64) << 24u64) | ((a5 as u64) << 16u64) | ((a6 as u64) << 8u64) | (a7 as u64)) == (((b0 as u64) << 56u64) | ((b1 as u64) << 48u64) | ((b2 as u64) << 40u64) | ((b3 as u64) << 32u64) | ((b4 as u64) << 24u64) | ((b5 as u64) << 16u64) | ((b6 as u64) << 8u64) | (b7 as u64)) | (((c0 as u64) << 56u64) | ((c1 as u64) << 48u64) | ((c2 as u64) << 40u64) | ((c3 as u64) << 32u64) | ((c4 as u64) << 24u64) | ((c5 as u64) << 16u64) | ((c6 as u64) << 8u64) | (c7 as u64)),
    ensures
        a0 == b0 | c0 && a1 == b1 | c1 && a2 == b2 | c2 && a3 == b3 | c3 && a4 == b4 | c4 && a5 == b5 | c5 && a6 == b6 | c6 && a7 == b7 | c7,
{
    assert(a0 == b0 | c0 && a1 == b1 | c1 && a2 == b2 | c2 && a3 == b3 | c3 && a4 == b4 | c4 && a5 == b5 | c5 && a6 == b6 | c6 && a7 == b7 | c7) by (bit_vector)
        requires
            (((a0 as u64) << 56u64) | ((a1 as u64) << 48u64) | ((a2 as u64) << 40u64) | ((a3 as u64) << 32u64) | ((a4 as u64) << 24u64) | ((a5 as u64) << 16u64) | ((a6 as u64) << 8u64) | (a7 as u64)) == (((b0 as u64) << 56u64) | ((b1 as u64) << 48u64) | ((b2 as u64) << 40u64) | ((b3 as u64) << 32u64) | ((b4 as u64) << 24u64) | ((b5 as u64) << 16u64) | ((b6 as u64) << 8u64) | (b7 as u64)) | (((c0 as u64) << 56u64) | ((c1 as u64) << 48u64) | ((c2 as u64) << 40u64) | ((c3 as u64) << 32u64) | ((c4 as u64) << 24u64) | ((c5 as u64) << 16u64) | ((c6 as u64) << 8u64) | (c7 as u64)),
    ;
}

proof fn lemma_double_eor_bytes(a0: u8, a1: u8, a2: u8, a3: u8, a4: u8, a5: u8, a6: u8, a7: u8, b0: u8, b1: u8, b2: u8, b3: u8, b4: u8, b5: u8, b6: u8, b7: u8, c0: u8, c1: u8, c2: u8, c3: u8, c4: u8, c5: u8, c6: u8, c7: u8)
    requires
        (((a0 as u64) << 56u64) | ((a1 as u64) << 48u64) | ((a2 as u64) << 40u64) | ((a3 as u64) << 32u64) | ((a4 as u64) << 24u64) | ((a5 as u64) << 16u64) | ((a6 as u64) << 8u64) | (a7 as u64)) == (((b0 as u64) << 56u64) | ((b1 as u64) << 48u64) | ((b2 as u64) << 40u64) | ((b3 as u64) << 32u64) | ((b4 as u64) << 24u64) | ((b5 as u64) << 16u64) | ((b6 as u64) << 8u64) | (b7 as u64)) ^ (((c0 as u64) << 56u64) | ((c1 as u64) << 48u64) | ((c2 as u64) << 40u64) | ((c3 as u64) << 32u64) | ((c4 as u64) << 24u64) | ((c5 as u64) << 16u64) | ((c6 as u64) << 8u64) | (c7 as u64)),
    ensures
        a0 == b0 ^ c0 && a1 == b1 ^ c1 && a2 == b2 ^ c2 && a3 == b3 ^ c3 && a4 == b4 ^ c4 && a5 == b5 ^ c5 && a6 == b6 ^ c6 && a7 == b7 ^ c7,
{
    assert(a0 == b0 ^ c0 && a1 == b1 ^ c1 && a2 == b2 ^ c2 && a3 == b3 ^ c3 && a4 == b4 ^ c4 && a5 == b5 ^ c5 && a6 == b6 ^ c6 && a7 == b7 ^ c7) by (bit_vector)
        requires
            (((a0 as u64) << 56u64) | ((a1 as u64) << 48u64) | ((a2 as u64) << 40u64) | ((a3 as u64) << 32u64) | ((a4 as u64) << 24u64) | ((a5 as u64) << 16u64) | ((a6 as u64) << 8u64) | (a7 as u64)) == (((b0 as u64) << 56u64) | ((b1 as u64) << 48u64) | ((b2 as u64) << 40u64) | ((b3 as u64) << 32u64) | ((b4 as u64) << 24u64) | ((b5 as u64) << 16u64) | ((b6 as u64) << 8u64) | (b7 as u64)) ^ (((c0 as u64) << 56u64) | ((c1 as u64) << 48u64) | ((c2 as u64) << 40u64) | ((c3 as u64) << 32u64) | ((c4 as u64) << 24u64) | ((c5 as u64) << 16u64) | ((c6 as u64) << 8u64) | (c7 as u64)),
    ;
}

/// `rev64` puts the bytes of its source in reverse order into its
/// destination (for `8h`, the halfwords, each keeping its two bytes in
/// order), and the moves copy the source register whole; nothing else
/// changes.
pub proof fn law_reverse_and_move(
    new: &ARMCORTEXA,
    old: &ARMCORTEXA,
    pc: usize,
    i: crate::instruction_parser::InstructionModel,
    r: Result<crate::common::ExecuteModel, Seq<char>>,
)
    requires
        old.wf(),
        new.executed(old, pc, i, r),
        i.ty == crate::instruction_parser::InstructionType::SIMDArithmetic,
        i.operands.len() >= 2,
        simd_operand(i.operands[0]),
        simd_operand(i.operands[1]),
    ensures
        ({
            let op = i.opcode;
            let n = simd_index(i.operands[0]);
            let src = old.vregs()[simd_index(i.operands[1])];
            let nv = new.vregs()[n];
            let h8 = i.operands[0] matches OperandModel::Vector(_, _, a) && a == Arrangement::H8;
            &&& (op == "rev64"@ || op == "mov"@ || op == "movi"@ || op == "fmov"@) ==> {
                &&& r == proceed()
                &&& new.regs() == old.regs()
                &&& forall|k: int| 0 <= k < 32 && k != n ==> #[trigger] new.vregs()[k] == old.vregs()[k]
            }
            &&& (op == "mov"@ || op == "movi"@ || op == "fmov"@) ==> nv == src
            &&& (op == "rev64"@ && !h8) ==> forall|j: int|
                0 <= j < 16 ==> #[trigger] nv.offset[j] == src.offset[15 - j] && nv.base[j] == src.base[15 - j]
            &&& (op == "rev64"@ && h8) ==> forall|m: int|
                0 <= m < 8 ==> #[trigger] nv.offset[2 * m] == src.offset[14 - 2 * m] && nv.offset[2 * m + 1]
                    == src.offset[15 - 2 * m] && nv.base[2 * m] == src.base[14 - 2 * m] && nv.base[2 * m + 1]
                    == src.base[15 - 2 * m]
        }),
{
    lemma_simd_mnemonics();
    let op = i.opcode;
    let n = simd_index(i.operands[0]);
    if op == "rev64"@ || op == "mov"@ || op == "movi"@ || op == "fmov"@ {
        assert forall|k: int| 0 <= k < 32 && k != n implies #[trigger] new.vregs()[k] == old.vregs()[k] by {}
    }
    if op == "rev64"@ {
        let h8 = i.operands[0] matches OperandModel::Vector(_, _, a) && a == Arrangement::H8;
        let src = old.vregs()[simd_index(i.operands[1])];
        let nv = new.vregs()[n];
        assert(rev64_done(nv, old.vregs()[n], src, h8, i.operands[0] is VectorRegister));
        if h8 {
            assert forall|m: int| 0 <= m < 8 implies #[trigger] nv.offset[2 * m] == src.offset[14 - 2 * m]
                && nv.offset[2 * m + 1] == src.offset[15 - 2 * m] && nv.base[2 * m] == src.base[14 - 2 * m]
                && nv.base[2 * m + 1] == src.base[15 - 2 * m] by {
                assert(rev64_source(true, 2 * m) == 14 - 2 * m);
                assert(rev64_source(true, 2 * m + 1) == 15 - 2 * m);
                assert(nv.offset[2 * m] == src.offset[rev64_source(true, 2 * m)]);
                assert(nv.base[2 * m] == src.base[rev64_source(true, 2 * m)]);
                assert(nv.offset[2 * m + 1] == src.offset[rev64_source(true, 2 * m + 1)]);
                assert(nv.base[2 * m + 1] == src.base[rev64_source(true, 2 * m + 1)]);
            }
        } else {
            assert forall|j: int| 0 <= j < 16 implies #[trigger] nv.offset[j] == src.offset[15 - j] && nv.base[j]
                == src.base[15 - j] by {
                assert(nv.offset[j] == src.offset[rev64_source(false, j)]);
                assert(nv.base[j] == src.base[rev64_source(false, j)]);
            }
        }
    }
}

/// The letters of the SIMD arithmetic mnemonics.
proof fn lemma_simd_mnemonics()
    ensures
        "rev64"@.len() == 5 && "rev64"@[0] == 'r' && "rev64"@[1] == 'e' && "rev64"@[2] == 'v' && "rev64"@[3] == '6' && "rev64"@[4] == '4',
        "and"@.len() == 3 && "and"@[0] == 'a' && "and"@[1] == 'n' && "and"@[2] == 'd',
        "add"@.len() == 3 && "add"@[0] == 'a' && "add"@[1] == 'd' && "add"@[2] == 'd',
        "orr"@.len() == 3 && "orr"@[0] == 'o' && "orr"@[1] == 'r' && "orr"@[2] == 'r',
        "eor"@.len() == 3 && "eor"@[0] == 'e' && "eor"@[1] == 'o' && "eor"@[2] == 'r',
        "mul"@.len() == 3 && "mul"@[0] == 'm' && "mul"@[1] == 'u' && "mul"@[2] == 'l',
        "sub"@.len() == 3 && "sub"@[0] == 's' && "sub"@[1] == 'u' && "sub"@[2] == 'b',
        "movi"@.len() == 4 && "movi"@[0] == 'm' && "movi"@[1] == 'o' && "movi"@[2] == 'v' && "movi"@[3] == 'i',
        "mov"@.len() == 3 && "mov"@[0] == 'm' && "mov"@[1] == 'o' && "mov"@[2] == 'v',
        "fmov"@.len() == 4 && "fmov"@[0] == 'f' && "fmov"@[1] == 'm' && "fmov"@[2] == 'o' && "fmov"@[3] == 'v',
        "shl"@.len() == 3 && "shl"@[0] == 's' && "shl"@[1] == 'h' && "shl"@[2] == 'l',
{
    reveal_strlit("rev64");
    reveal_strlit("and");
    reveal_strlit("add");
    reveal_strlit("orr");
    reveal_strlit("eor");
    reveal_strlit("mul");
    reveal_strlit("sub");
    reveal_strlit("movi");
    reveal_strlit("mov");
    reveal_strlit("fmov");
    reveal_strlit("shl");
}

/// What the lane-wise SIMD instructions compute, in an arrangement of
/// bytes (`8b`, `16b`), halfwords (`8h`), words (`4s`) or doublewords
/// (`2d`): `and`, `orr` and `eor` make each written byte the bitwise
/// operation of the source bytes at that place, whatever the lanes; `add`,
/// `sub` and `mul` make each lane, read as a number most significant byte
/// first, the sum, difference or product of the source lanes modulo 2^w
/// for lanes of w bits. Only the destination changes; an `8b` operation
/// writes its low eight bytes and keeps the others; where neither source
/// byte has a symbolic part, the written byte has none.
pub proof fn law_lane_arithmetic(
    new: &ARMCORTEXA,
    old: &ARMCORTEXA,
    pc: usize,
    i: crate::instruction_parser::InstructionModel,
    r: Result<crate::common::ExecuteModel, Seq<char>>,
)
    requires
        old.wf(),
        new.executed(old, pc, i, r),
        i.ty == crate::instruction_parser::InstructionType::SIMDArithmetic,
        i.operands.len() >= 3,
        arithmetic_vector(i.operands[0]),
        any_vector(i.operands[1]),
        any_vector(i.operands[2]),
    ensures
        ({
            let op = i.opcode;
            let n = simd_index(i.operands[0]);
            let a = match i.operands[0] {
                OperandModel::Vector(_, _, a) => a,
                _ => Arrangement::B16,
            };
            let nb: int = if a == Arrangement::B8 { 8 } else { 16 };
            let d = old.vregs()[n];
            let s1 = old.vregs()[simd_index(i.operands[1])];
            let s2 = old.vregs()[simd_index(i.operands[2])];
            let nv = new.vregs()[n];
            let o = nv.offset;
            let x = s1.offset;
            let y = s2.offset;
            let lanewise = op == "and"@ || op == "orr"@ || op == "eor"@ || op == "add"@ || op == "sub"@ || op == "mul"@;
            &&& lanewise ==> r == proceed() && new.regs() == old.regs() && nv.kind == d.kind
            &&& lanewise ==> forall|k: int| 0 <= k < 32 && k != n ==> #[trigger] new.vregs()[k] == old.vregs()[k]
            &&& lanewise ==> forall|j: int| nb <= j < 16 ==> #[trigger] o[j] == d.offset[j]
            &&& lanewise ==> forall|j: int|
                0 <= j < nb && s1.base[j] is None && s2.base[j] is None ==> (#[trigger] nv.base[j]) is None
            &&& op == "and"@ ==> forall|j: int| 0 <= j < nb ==> #[trigger] o[j] == x[j] & y[j]
            &&& op == "orr"@ ==> forall|j: int| 0 <= j < nb ==> #[trigger] o[j] == x[j] | y[j]
            &&& op == "eor"@ ==> forall|j: int| 0 <= j < nb ==> #[trigger] o[j] == x[j] ^ y[j]
            &&& (a == Arrangement::B8 || a == Arrangement::B16) ==> forall|j: int|
                0 <= j < nb ==> {
                    &&& op == "add"@ ==> #[trigger] o[j] == (x[j] + y[j]) % 0x100
                    &&& op == "sub"@ ==> o[j] == (x[j] - y[j]) % 0x100
                    &&& op == "mul"@ ==> o[j] == (x[j] * y[j]) % 0x100
                }
            &&& a == Arrangement::H8 ==> forall|k: int|
                0 <= k < 8 ==> {
                    &&& op == "add"@ ==> #[trigger] half_number(o, k) == (half_number(x, k) + half_number(y, k)) % 0x1_0000
                    &&& op == "sub"@ ==> half_number(o, k) == (half_number(x, k) - half_number(y, k)) % 0x1_0000
                    &&& op == "mul"@ ==> half_number(o, k) == (half_number(x, k) * half_number(y, k)) % 0x1_0000
                }
            &&& a == Arrangement::S4 ==> forall|k: int|
                0 <= k < 4 ==> {
                    &&& op == "add"@ ==> #[trigger] word_number(o, k) == (word_number(x, k) + word_number(y, k)) % 0x1_0000_0000
                    &&& op == "sub"@ ==> word_number(o, k) == (word_number(x, k) - word_number(y, k)) % 0x1_0000_0000
                    &&& op == "mul"@ ==> word_number(o, k) == (word_number(x, k) * word_number(y, k)) % 0x1_0000_0000
                }
            &&& a == Arrangement::D2 ==> forall|k: int|
                0 <= k < 2 ==> {
                    &&& op == "add"@ ==> #[trigger] double_number(o, k) == (double_number(x, k) + double_number(y, k))
                        % 0x1_0000_0000_0000_0000
                    &&& op == "sub"@ ==> double_number(o, k) == (double_number(x, k) - double_number(y, k))
                        % 0x1_0000_0000_0000_0000
                    &&& op == "mul"@ ==> double_number(o, k) == (double_number(x, k) * double_number(y, k))
                        % 0x1_0000_0000_0000_0000
                }
        }),
{
    lemma_simd_mnemonics();
    let op = i.opcode;
    if op == "and"@ || op == "orr"@ || op == "eor"@ || op == "add"@ || op == "sub"@ || op == "mul"@ {
        assert(is_lane_op(op));
        let n = simd_index(i.operands[0]);
        let a = vector_arrangement(i.operands[0]);
        let k = lane_op_of(op);
        assert(op == "and"@ <==> k == LaneOp::And);
        assert(op == "orr"@ <==> k == LaneOp::Orr);
        assert(op == "eor"@ <==> k == LaneOp::Eor);
        assert(op == "add"@ <==> k == LaneOp::Add);
        assert(op == "sub"@ <==> k == LaneOp::Sub);
        assert(op == "mul"@ <==> k == LaneOp::Mul);
        let d = old.vregs()[n];
        let s1 = old.vregs()[simd_index(i.operands[1])];
        let s2 = old.vregs()[simd_index(i.operands[2])];
        let nv = new.vregs()[n];
        assert(lanes_computed(nv, d, s1, s2, a, k));
        assert(s1.offset.len() == 16 && s2.offset.len() == 16 && nv.offset.len() == 16);
        assert forall|kk: int| 0 <= kk < 32 && kk != n implies #[trigger] new.vregs()[kk] == old.vregs()[kk] by {}
        assert forall|j: int| lane_bytes(a) <= j < 16 implies #[trigger] nv.offset[j] == d.offset[j] by {
            assert(nv.base[j] == d.base[j]);
        }
        assert forall|j: int|
            0 <= j < lane_bytes(a) && s1.base[j] is None && s2.base[j] is None implies (#[trigger] nv.base[j]) is None by {
            assert(nv.base[j] == lane_base(lane_symbol(k), a, s1.base[j], s2.base[j]));
        }
        if a == Arrangement::H8 {
            lemma_half_lanes_meaning(nv.offset, s1.offset, s2.offset, k);
        } else if a == Arrangement::S4 {
            lemma_word_lanes_meaning(nv.offset, s1.offset, s2.offset, k);
        } else if a == Arrangement::D2 {
            lemma_double_lanes_numbers(nv.offset, s1.offset, s2.offset, k);
            lemma_double_lanes_bytes(nv.offset, s1.offset, s2.offset, k);
        }
    }
}

/// Lanes of 2 bytes that hold `k` of the source lanes `x` and `y`: the
/// bitwise operations act byte by byte, and sums, differences and products
/// are those of the lanes as numbers modulo 2^16.
proof fn lemma_half_lanes_meaning(o: Seq<u8>, x: Seq<u8>, y: Seq<u8>, k: LaneOp)
    requires
        o.len() == 16,
        x.len() == 16,
        y.len() == 16,
        forall|m: int| 0 <= m < 8 ==> #[trigger] half_lane(o, m) == lane_u16(k, half_lane(x, m), half_lane(y, m)),
    ensures
        k == LaneOp::And ==> forall|j: int| 0 <= j < 16 ==> #[trigger] o[j] == x[j] & y[j],
        k == LaneOp::Orr ==> forall|j: int| 0 <= j < 16 ==> #[trigger] o[j] == x[j] | y[j],
        k == LaneOp::Eor ==> forall|j: int| 0 <= j < 16 ==> #[trigger] o[j] == x[j] ^ y[j],
        forall|m: int|
            0 <= m < 8 ==> {
                &&& k == LaneOp::Add ==> #[trigger] half_number(o, m) == (half_number(x, m) + half_number(y, m)) % 0x1_0000
                &&& k == LaneOp::Sub ==> half_number(o, m) == (half_number(x, m) - half_number(y, m)) % 0x1_0000
                &&& k == LaneOp::Mul ==> half_number(o, m) == (half_number(x, m) * half_number(y, m)) % 0x1_0000
            },
{
    assert forall|m: int| 0 <= m < 8 implies {
        &&& k == LaneOp::Add ==> #[trigger] half_number(o, m) == (half_number(x, m) + half_number(y, m)) % 0x1_0000
        &&& k == LaneOp::Sub ==> half_number(o, m) == (half_number(x, m) - half_number(y, m)) % 0x1_0000
        &&& k == LaneOp::Mul ==> half_number(o, m) == (half_number(x, m) * half_number(y, m)) % 0x1_0000
    } by {
        assert(half_lane(o, m) == lane_u16(k, half_lane(x, m), half_lane(y, m)));
        lemma_half_number(o[2 * m], o[2 * m + 1]);
        lemma_half_number(x[2 * m], x[2 * m + 1]);
        lemma_half_number(y[2 * m], y[2 * m + 1]);
    }
    assert forall|j: int| 0 <= j < 16 implies {
        &&& k == LaneOp::And ==> #[trigger] o[j] == x[j] & y[j]
        &&& k == LaneOp::Orr ==> o[j] == x[j] | y[j]
        &&& k == LaneOp::Eor ==> o[j] == x[j] ^ y[j]
    } by {
        let m = j / 2;
        assert(2 * m <= j < 2 * m + 2);
        assert(half_lane(o, m) == lane_u16(k, half_lane(x, m), half_lane(y, m)));
        if k == LaneOp::And {
            lemma_half_and_bytes(o[2 * m], o[2 * m + 1], x[2 * m], x[2 * m + 1], y[2 * m], y[2 * m + 1]);
        } else if k == LaneOp::Orr {
            lemma_half_orr_bytes(o[2 * m], o[2 * m + 1], x[2 * m], x[2 * m + 1], y[2 * m], y[2 * m + 1]);
        } else if k == LaneOp::Eor {
            lemma_half_eor_bytes(o[2 * m], o[2 * m + 1], x[2 * m], x[2 * m + 1], y[2 * m], y[2 * m + 1]);
        }
    }
}

/// Lanes of 4 bytes that hold `k` of the source lanes `x` and `y`: the
/// bitwise operations act byte by byte, and sums, differences and products
/// are those of the lanes as numbers modulo 2^32.
proof fn lemma_word_lanes_meaning(o: Seq<u8>, x: Seq<u8>, y: Seq<u8>, k: LaneOp)
    requires
        o.len() == 16,
        x.len() == 16,
        y.len() == 16,
        forall|m: int| 0 <= m < 4 ==> #[trigger] word_lane(o, m) == lane_u32(k, word_lane(x, m), word_lane(y, m)),
    ensures
        k == LaneOp::And ==> forall|j: int| 0 <= j < 16 ==> #[trigger] o[j] == x[j] & y[j],
        k == LaneOp::Orr ==> forall|j: int| 0 <= j < 16 ==> #[trigger] o[j] == x[j] | y[j],
        k == LaneOp::Eor ==> forall|j: int| 0 <= j < 16 ==> #[trigger] o[j] == x[j] ^ y[j],
        forall|m: int|
            0 <= m < 4 ==> {
                &&& k == LaneOp::Add ==> #[trigger] word_number(o, m) == (word_number(x, m) + word_number(y, m)) % 0x1_0000_0000
                &&& k == LaneOp::Sub ==> word_number(o, m) == (word_number(x, m) - word_number(y, m)) % 0x1_0000_0000
                &&& k == LaneOp::Mul ==> word_number(o, m) == (word_number(x, m) * word_number(y, m)) % 0x1_0000_0000
            },
{
    assert forall|m: int| 0 <= m < 4 implies {
        &&& k == LaneOp::Add ==> #[trigger] word_number(o, m) == (word_number(x, m) + word_number(y, m)) % 0x1_0000_0000
        &&& k == LaneOp::Sub ==> word_number(o, m) == (word_number(x, m) - word_number(y, m)) % 0x1_0000_0000
        &&& k == LaneOp::Mul ==> word_number(o, m) == (word_number(x, m) * word_number(y, m)) % 0x1_0000_0000
    } by {
        assert(word_lane(o, m) == lane_u32(k, word_lane(x, m), word_lane(y, m)));
        lemma_word_number(o[4 * m], o[4 * m + 1], o[4 * m + 2], o[4 * m + 3]);
        lemma_word_number(x[4 * m], x[4 * m + 1], x[4 * m + 2], x[4 * m + 3]);
        lemma_word_number(y[4 * m], y[4 * m + 1], y[4 * m + 2], y[4 * m + 3]);
    }
    assert forall|j: int| 0 <= j < 16 implies {
        &&& k == LaneOp::And ==> #[trigger] o[j] == x[j] & y[j]
        &&& k == LaneOp::Orr ==> o[j] == x[j] | y[j]
        &&& k == LaneOp::Eor ==> o[j] == x[j] ^ y[j]
    } by {
        let m = j / 4;
        assert(4 * m <= j < 4 * m + 4);
        assert(word_lane(o, m) == lane_u32(k, word_lane(x, m), word_lane(y, m)));
        if k == LaneOp::And {
            lemma_word_and_bytes(o[4 * m], o[4 * m + 1], o[4 * m + 2], o[4 * m + 3], x[4 * m], x[4 * m + 1], x[4 * m + 2], x[4 * m + 3], y[4 * m], y[4 * m + 1], y[4 * m + 2], y[4 * m + 3]);
        } else if k == LaneOp::Orr {
            lemma_word_orr_bytes(o[4 * m], o[4 * m + 1], o[4 * m + 2], o[4 * m + 3], x[4 * m], x[4 * m + 1], x[4 * m + 2], x[4 * m + 3], y[4 * m], y[4 * m + 1], y[4 * m + 2], y[4 * m + 3]);
        } else if k == LaneOp::Eor {
            lemma_word_eor_bytes(o[4 * m], o[4 * m + 1], o[4 * m + 2], o[4 * m + 3], x[4 * m], x[4 * m + 1], x[4 * m + 2], x[4 * m + 3], y[4 * m], y[4 * m + 1], y[4 * m + 2], y[4 * m + 3]);
        }
    }
}

/// Lanes of 8 bytes that hold `k` of the source lanes `x` and `y`: the
/// sums, differences and products are those of the lanes as numbers modulo
/// 2^64.
#[verifier::rlimit(100)]
proof fn lemma_double_lanes_numbers(o: Seq<u8>, x: Seq<u8>, y: Seq<u8>, k: LaneOp)
    requires
        o.len() == 16,
        x.len() == 16,
        y.len() == 16,
        forall|m: int| 0 <= m < 2 ==> #[trigger] double_lane(o, m) == lane_u64(k, double_lane(x, m), double_lane(y, m)),
    ensures
        forall|m: int|
            0 <= m < 2 ==> {
                &&& k == LaneOp::Add ==> #[trigger] double_number(o, m) == (double_number(x, m) + double_number(y, m)) % 0x1_0000_0000_0000_0000
                &&& k == LaneOp::Sub ==> double_number(o, m) == (double_number(x, m) - double_number(y, m)) % 0x1_0000_0000_0000_0000
                &&& k == LaneOp::Mul ==> double_number(o, m) == (double_number(x, m) * double_number(y, m)) % 0x1_0000_0000_0000_0000
            },
{
    assert forall|m: int| 0 <= m < 2 implies {
        &&& k == LaneOp::Add ==> #[trigger] double_number(o, m) == (double_number(x, m) + double_number(y, m)) % 0x1_0000_0000_0000_0000
        &&& k == LaneOp::Sub ==> double_number(o, m) == (double_number(x, m) - double_number(y, m)) % 0x1_0000_0000_0000_0000
        &&& k == LaneOp::Mul ==> double_number(o, m) == (double_number(x, m) * double_number(y, m)) % 0x1_0000_0000_0000_0000
    } by {
        let ov = double_lane(o, m);
        let xv = double_lane(x, m);
        let yv = double_lane(y, m);
        assert(ov == lane_u64(k, xv, yv));
        lemma_double_number(o[8 * m], o[8 * m + 1], o[8 * m + 2], o[8 * m + 3], o[8 * m + 4], o[8 * m + 5], o[8 * m + 6], o[8 * m + 7]);
        lemma_double_number(x[8 * m], x[8 * m + 1], x[8 * m + 2], x[8 * m + 3], x[8 * m + 4], x[8 * m + 5], x[8 * m + 6], x[8 * m + 7]);
        lemma_double_number(y[8 * m], y[8 * m + 1], y[8 * m + 2], y[8 * m + 3], y[8 * m + 4], y[8 * m + 5], y[8 * m + 6], y[8 * m + 7]);
        lemma_u64_lane_arithmetic(ov, xv, yv, k);
    }
}

/// A doubleword lane that holds `k` of `x` and `y`: for sums, differences
/// and products, their value modulo 2^64.
proof fn lemma_u64_lane_arithmetic(v: u64, x: u64, y: u64, k: LaneOp)
    requires
        v == lane_u64(k, x, y),
    ensures
        k == LaneOp::Add ==> v as int == (x + y) % 0x1_0000_0000_0000_0000,
        k == LaneOp::Sub ==> v as int == (x - y) % 0x1_0000_0000_0000_0000,
        k == LaneOp::Mul ==> v as int == (x * y) % 0x1_0000_0000_0000_0000,
{
}

/// The bytes of doubleword lanes that hold a bitwise operation of the
/// source lanes `x` and `y` are that operation of the source bytes.
#[verifier::rlimit(100)]
#[verifier::spinoff_prover]
proof fn lemma_double_lanes_bytes(o: Seq<u8>, x: Seq<u8>, y: Seq<u8>, k: LaneOp)
    requires
        o.len() == 16,
        x.len() == 16,
        y.len() == 16,
        forall|m: int| 0 <= m < 2 ==> #[trigger] double_lane(o, m) == lane_u64(k, double_lane(x, m), double_lane(y, m)),
    ensures
        k == LaneOp::And ==> forall|j: int| 0 <= j < 16 ==> #[trigger] o[j] == x[j] & y[j],
        k == LaneOp::Orr ==> forall|j: int| 0 <= j < 16 ==> #[trigger] o[j] == x[j] | y[j],
        k == LaneOp::Eor ==> forall|j: int| 0 <= j < 16 ==> #[trigger] o[j] == x[j] ^ y[j],
{
    assert forall|j: int| 0 <= j < 16 implies {
        &&& k == LaneOp::And ==> #[trigger] o[j] == x[j] & y[j]
        &&& k == LaneOp::Orr ==> o[j] == x[j] | y[j]
        &&& k == LaneOp::Eor ==> o[j] == x[j] ^ y[j]
    } by {
        let m = j / 8;
        assert(8 * m <= j < 8 * m + 8);
        assert(double_lane(o, m) == lane_u64(k, double_lane(x, m), double_lane(y, m)));
        if k == LaneOp::And {
            lemma_double_and_bytes(o[8 * m], o[8 * m + 1], o[8 * m + 2], o[8 * m + 3], o[8 * m + 4], o[8 * m + 5], o[8 * m + 6], o[8 * m + 7], x[8 * m], x[8 * m + 1], x[8 * m + 2], x[8 * m + 3], x[8 * m + 4], x[8 * m + 5], x[8 * m + 6], x[8 * m + 7], y[8 * m], y[8 * m + 1], y[8 * m + 2], y[8 * m + 3], y[8 * m + 4], y[8 * m + 5], y[8 * m + 6], y[8 * m + 7]);
        } else if k == LaneOp::Orr {
            lemma_double_orr_bytes(o[8 * m], o[8 * m + 1], o[8 * m + 2], o[8 * m + 3], o[8 * m + 4], o[8 * m + 5], o[8 * m + 6], o[8 * m + 7], x[8 * m], x[8 * m + 1], x[8 * m + 2], x[8 * m + 3], x[8 * m + 4], x[8 * m + 5], x[8 * m + 6], x[8 * m + 7], y[8 * m], y[8 * m + 1], y[8 * m + 2], y[8 * m + 3], y[8 * m + 4], y[8 * m + 5], y[8 * m + 6], y[8 * m + 7]);
        } else if k == LaneOp::Eor {
            lemma_double_eor_bytes(o[8 * m], o[8 * m + 1], o[8 * m + 2], o[8 * m + 3], o[8 * m + 4], o[8 * m + 5], o[8 * m + 6], o[8 * m + 7], x[8 * m], x[8 * m + 1], x[8 * m + 2], x[8 * m + 3], x[8 * m + 4], x[8 * m + 5], x[8 * m + 6], x[8 * m + 7], y[8 * m], y[8 * m + 1], y[8 * m + 2], y[8 * m + 3], y[8 * m + 4], y[8 * m + 5], y[8 * m + 6], y[8 * m + 7]);
        }
    }
}
} // verus!
