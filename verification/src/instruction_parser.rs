//! Parsing of AArch64 assembly lines into instructions and operands.
//!
//! The meaning of a parse is given by spec functions over the characters of
//! the text (`instruction_spec`, `operand_spec`, `string_to_int_value`); the
//! executable parser is proved to compute exactly that. Where the text is one
//! the parser cannot make sense of, the spec is `None`.
use vstd::prelude::*;
use crate::text::{
    ends_with, field0, field1, first_index, first_is_ascii, parse_hex_i128, parse_i64, parse_usize,
    remove_chars, starts_with, trim, trim_start, words, contains_char, starts_with_chars,
    slice_from, slice_range, trim_bounds, remove_chars_exec, parse_hex_i128_exec, parse_i64_exec,
    to_chars, eq_chars, lemma_words_extra_separator, ends_with_chars, contains_text, contains_chars, bounds_text, bounds_valid, word_bounds, fields01, trim_start_len, parse_usize_exec, substring, lemma_first_index_contains,
};

verus! {

// ---------------------------------------------------------------------------
// Types
// ---------------------------------------------------------------------------

/// One line of assembly: its kind, its mnemonic and its operands.
#[derive(Debug, Clone, PartialEq)]
pub struct Instruction {
    pub ty: InstructionType,
    pub opcode: String,
    pub operands: Vec<Operand>,
}

/// Lane arrangement of a SIMD register.
#[derive(Debug, Clone, Copy, PartialEq, Eq, Structural)]
pub enum Arrangement {
    B8,
    B16,
    H4,
    H8,
    S2,
    S4,
    D2,
    D,
    S,
    H,
    B,
}

/// Register file prefix.
#[derive(Debug, Clone, Copy, PartialEq, Eq, Structural)]
pub enum RePrefix {
    X,
    W,
    V,
    Fp,
    Sp,
    Ra,
    Ze,
}

/// An operand of an instruction.
#[derive(Debug, Clone, PartialEq)]
pub enum Operand {
    Register(RePrefix, usize),
    Immediate(i64),
    /// Base register, offset, shift, and indexing: `Some(false)` for
    /// pre-indexing (`[x0, #8]!`), `Some(true)` for post-indexing
    /// (`[x0], #8`).
    Memory(RePrefix, usize, Option<i64>, Option<String>, Option<bool>),
    /// A shift such as `lsl#2`.
    Bitwise(String, i64),
    VectorRegister(RePrefix, usize),
    Vector(RePrefix, usize, Arrangement),
    /// An element of a vector, such as `v1.d[1]`.
    VectorAccess(RePrefix, usize, Arrangement, i64),
    Label(String),
    /// A relative address such as `LK256@PAGEOFF`.
    Address(String, i64),
    Other,
}

/// The kind of an instruction.
#[derive(Debug, Clone, Copy, PartialEq, Eq, Structural)]
pub enum InstructionType {
    Arithmetic,
    Memory,
    ControlFlow,
    SIMDArithmetic,
    SIMDManagement,
    Label,
    Other,
}

/// An operand with its texts as character sequences.
pub enum OperandModel {
    Register(RePrefix, usize),
    Immediate(i64),
    Memory(RePrefix, usize, Option<i64>, Option<Seq<char>>, Option<bool>),
    Bitwise(Seq<char>, i64),
    VectorRegister(RePrefix, usize),
    Vector(RePrefix, usize, Arrangement),
    VectorAccess(RePrefix, usize, Arrangement, i64),
    Label(Seq<char>),
    Address(Seq<char>, i64),
    Other,
}

/// An instruction with its texts as character sequences.
pub struct InstructionModel {
    pub ty: InstructionType,
    pub opcode: Seq<char>,
    pub operands: Seq<OperandModel>,
}

impl View for Operand {
    type V = OperandModel;

    open spec fn view(&self) -> OperandModel {
        match self {
            Operand::Register(p, n) => OperandModel::Register(*p, *n),
            Operand::Immediate(n) => OperandModel::Immediate(*n),
            Operand::Memory(p, n, o, s, i) => OperandModel::Memory(
                *p,
                *n,
                *o,
                match s {
                    Some(x) => Some(x@),
                    None => None,
                },
                *i,
            ),
            Operand::Bitwise(s, n) => OperandModel::Bitwise(s@, *n),
            Operand::VectorRegister(p, n) => OperandModel::VectorRegister(*p, *n),
            Operand::Vector(p, n, a) => OperandModel::Vector(*p, *n, *a),
            Operand::VectorAccess(p, n, a, i) => OperandModel::VectorAccess(*p, *n, *a, *i),
            Operand::Label(s) => OperandModel::Label(s@),
            Operand::Address(s, n) => OperandModel::Address(s@, *n),
            Operand::Other => OperandModel::Other,
        }
    }
}

pub open spec fn operands_view(ops: Seq<Operand>) -> Seq<OperandModel> {
    ops.map_values(|o: Operand| o@)
}

impl View for Instruction {
    type V = InstructionModel;

    open spec fn view(&self) -> InstructionModel {
        InstructionModel { ty: self.ty, opcode: self.opcode@, operands: operands_view(self.operands@) }
    }
}

// ---------------------------------------------------------------------------
// Integer expressions
// ---------------------------------------------------------------------------

/// `s` with spaces, then `#`, then `(`, then `)` trimmed from both ends.
pub open spec fn int_trim(s: Seq<char>) -> Seq<char> {
    trim(trim(trim(trim(s, seq![' ']), seq!['#']), seq!['(']), seq![')'])
}

/// Index of the last `c` in `s`, or -1.
pub open spec fn last_index(s: Seq<char>, c: char) -> int
    decreases s.len(),
{
    if s.len() == 0 {
        -1
    } else if s.last() == c {
        s.len() - 1
    } else {
        last_index(s.drop_last(), c)
    }
}

pub open spec fn checked_add_opt(a: Option<i64>, b: Option<i64>) -> Option<i64> {
    match (a, b) {
        (Some(x), Some(y)) => if i64::MIN <= x + y <= i64::MAX {
            Some((x + y) as i64)
        } else {
            None
        },
        _ => None,
    }
}

pub open spec fn checked_mul_opt(a: Option<i64>, b: Option<i64>) -> Option<i64> {
    match (a, b) {
        (Some(x), Some(y)) => if i64::MIN <= x * y <= i64::MAX {
            Some((x * y) as i64)
        } else {
            None
        },
        _ => None,
    }
}

/// The characters dropped from a decimal number before it is read.
pub open spec fn noise_chars() -> Seq<char> {
    seq!['(', ')', ',', '"', '.', ';', ':', '\'', '#']
}

/// A single number: hexadecimal after `0x` (read as `i128`, then cut to
/// 64 bits), else decimal once the noise characters are dropped.
pub open spec fn plain_value(v: Seq<char>) -> Option<i64> {
    if v.contains('x') {
        if starts_with(v, seq!['0', 'x']) {
            match parse_hex_i128(v.skip(2)) {
                Some(h) => Some(h as i64),
                None => None,
            }
        } else {
            None
        }
    } else {
        parse_i64(remove_chars(v, noise_chars()))
    }
}

/// `1 + p1 + p2 + ... + pn` for the `+`-separated parts of `u`, each a plain
/// number once trimmed, in 64-bit arithmetic without overflow.
pub open spec fn add_chain(u: Seq<char>) -> Option<i64>
    decreases u.len(),
{
    let k = last_index(u, '+');
    if 0 <= k < u.len() {
        checked_add_opt(add_chain(u.take(k)), plain_value(int_trim(u.skip(k + 1))))
    } else {
        checked_add_opt(Some(1), plain_value(int_trim(u)))
    }
}

/// The value of a text without `*`.
pub open spec fn sum_value(p: Seq<char>) -> Option<i64> {
    let v = int_trim(p);
    if v.contains('+') {
        add_chain(v)
    } else {
        plain_value(v)
    }
}

/// `1 * p1 * p2 * ... * pn` for the `*`-separated parts of `u`, in 64-bit
/// arithmetic without overflow.
pub open spec fn mul_chain(u: Seq<char>) -> Option<i64>
    decreases u.len(),
{
    let k = last_index(u, '*');
    if 0 <= k < u.len() {
        checked_mul_opt(mul_chain(u.take(k)), sum_value(u.skip(k + 1)))
    } else {
        checked_mul_opt(Some(1), sum_value(u))
    }
}

/// The value of an integer expression as the assembly parser reads it:
/// products of `+`-chains of numbers. `None` where the text is not one.
pub open spec fn string_to_int_value(s: Seq<char>) -> Option<i64> {
    let v = int_trim(s);
    if v.contains('*') {
        mul_chain(v)
    } else if v.contains('+') {
        add_chain(v)
    } else {
        plain_value(v)
    }
}

// ---------------------------------------------------------------------------
// Operands
// ---------------------------------------------------------------------------

pub open spec fn arrangement_of(s: Seq<char>) -> Option<Arrangement> {
    if s == seq!['8', 'b'] {
        Some(Arrangement::B8)
    } else if s == seq!['1', '6', 'b'] {
        Some(Arrangement::B16)
    } else if s == seq!['4', 'h'] {
        Some(Arrangement::H4)
    } else if s == seq!['8', 'h'] {
        Some(Arrangement::H8)
    } else if s == seq!['2', 's'] {
        Some(Arrangement::S2)
    } else if s == seq!['4', 's'] {
        Some(Arrangement::S4)
    } else if s == seq!['2', 'd'] {
        Some(Arrangement::D2)
    } else if s == seq!['d'] {
        Some(Arrangement::D)
    } else if s == seq!['s'] {
        Some(Arrangement::S)
    } else if s == seq!['h'] {
        Some(Arrangement::H)
    } else if s == seq!['b'] {
        Some(Arrangement::B)
    } else {
        None
    }
}

/// The texts that open a general purpose register name.
pub open spec fn has_register_start(a: Seq<char>) -> bool {
    starts_with(a, seq!['x']) || starts_with(a, seq!['z']) || starts_with(a, seq!['w'])
        || starts_with(a, seq!['f', 'p']) || starts_with(a, seq!['s', 'p'])
}

/// A vector operand: `v3`, `v3.16b` or `v3.d[1]`.
pub open spec fn vector_operand_spec(a: Seq<char>) -> Option<OperandModel> {
    if a.contains('.') {
        let base = field0(a, seq!['.']);
        let arr = field1(a, seq!['.']);
        if arr.contains('[') {
            let ar = arrangement_of(field0(arr, seq!['[', ']']));
            let idx = string_to_int_value(field1(arr, seq!['[', ']']));
            if ar is Some && idx is Some && first_is_ascii(base) {
                match parse_usize(base.skip(1)) {
                    Some(i) => Some(OperandModel::VectorAccess(RePrefix::V, i, ar->0, idx->0)),
                    None => None,
                }
            } else {
                None
            }
        } else {
            let ar = arrangement_of(arr);
            if ar is Some && first_is_ascii(base) {
                match parse_usize(base.skip(1)) {
                    Some(i) => Some(OperandModel::Vector(RePrefix::V, i, ar->0)),
                    None => None,
                }
            } else {
                None
            }
        }
    } else if first_is_ascii(a) {
        match parse_usize(a.skip(1)) {
            Some(i) => Some(OperandModel::VectorRegister(RePrefix::V, i)),
            None => None,
        }
    } else {
        None
    }
}

/// The characters trimmed from the base of a memory operand.
pub open spec fn bracket_chars() -> Seq<char> {
    seq!['[', ']', ',']
}

/// The characters trimmed from the offset of a memory operand.
pub open spec fn offset_chars() -> Seq<char> {
    seq!['[', ']', ',', '#', '!']
}

/// A memory operand: `[x0]`, `[sp, #4]`, `[x0, #8]`, `[x0, #8]!` or `[x0], #8`.
pub open spec fn memory_operand_spec(a: Seq<char>) -> Option<OperandModel> {
    let b = field0(a, seq![',']);
    let has_second = first_index(a, seq![',']) < a.len();
    let base = trim(b, bracket_chars());
    let off = string_to_int_value(trim(field1(a, seq![',']), offset_chars()));
    let indexing = if a.contains('!') {
        Some(false)
    } else if b.contains(']') && has_second {
        Some(true)
    } else {
        None
    };
    if has_second && off is None {
        None
    } else if base == seq!['s', 'p'] {
        Some(
            OperandModel::Memory(
                RePrefix::Sp,
                0,
                if has_second {
                    off
                } else {
                    None
                },
                None,
                indexing,
            ),
        )
    } else if base.len() > 0 && (base[0] == 'x' || base[0] == 'w') {
        match parse_usize(base.skip(1)) {
            Some(num) => Some(
                OperandModel::Memory(
                    if base[0] == 'x' {
                        RePrefix::X
                    } else {
                        RePrefix::W
                    },
                    num,
                    if has_second {
                        off
                    } else {
                        None
                    },
                    None,
                    indexing,
                ),
            ),
            None => None,
        }
    } else {
        None
    }
}

/// An operand that does not name a general purpose register.
pub open spec fn other_operand_spec(a: Seq<char>) -> Option<OperandModel> {
    if starts_with(a, seq!['#']) {
        match parse_i64(trim_start(a, seq!['#'])) {
            Some(n) => Some(OperandModel::Immediate(n)),
            None => match string_to_int_value(a) {
                Some(n) => Some(OperandModel::Immediate(n)),
                None => None,
            },
        }
    } else if a.contains('@') {
        Some(OperandModel::Address(a, 0))
    } else if a.contains('#') && !a.contains('[') && field0(a, seq!['#']).len() > 0 {
        match parse_i64(field1(a, seq!['#'])) {
            Some(n) => Some(OperandModel::Bitwise(field0(a, seq!['#']), n)),
            None => None,
        }
    } else if a.contains('v') {
        vector_operand_spec(a)
    } else if a.contains('[') || a.contains(']') {
        memory_operand_spec(a)
    } else if a.len() > 0 {
        Some(OperandModel::Label(a))
    } else {
        Some(OperandModel::Other)
    }
}

/// The operand that the text `a` denotes, or `None` where it denotes none.
pub open spec fn operand_spec(a: Seq<char>) -> Option<OperandModel> {
    if has_register_start(a) {
        if a == seq!['s', 'p'] {
            Some(OperandModel::Register(RePrefix::Sp, 0))
        } else if a == seq!['f', 'p'] {
            Some(OperandModel::Register(RePrefix::Fp, 0))
        } else if a == seq!['r', 'a'] {
            Some(OperandModel::Register(RePrefix::Ra, 0))
        } else if a == seq!['z', 'e'] {
            Some(OperandModel::Register(RePrefix::Ze, 0))
        } else {
            match parse_usize(a.skip(1)) {
                Some(num) => if a[0] == 'x' {
                    Some(OperandModel::Register(RePrefix::X, num))
                } else if a[0] == 'w' {
                    Some(OperandModel::Register(RePrefix::W, num))
                } else {
                    None
                },
                None => other_operand_spec(a),
            }
        }
    } else {
        other_operand_spec(a)
    }
}

// ---------------------------------------------------------------------------
// Instructions
// ---------------------------------------------------------------------------

/// The characters that separate the words of an instruction.
pub open spec fn word_separators() -> Seq<char> {
    seq!['\t', ',', ' ', '{', '}']
}

/// The shift mnemonics that may stand apart from their `#amount`.
pub open spec fn is_shift_name(t: Seq<char>) -> bool {
    t == seq!['l', 's', 'l'] || t == seq!['l', 's', 'r'] || t == seq!['a', 's', 'r'] || t == seq![
        'r',
        'o',
        'r',
    ]
}

/// The words joined with commas.
pub open spec fn join_comma(ts: Seq<Seq<char>>) -> Seq<char>
    decreases ts.len(),
{
    if ts.len() == 0 {
        Seq::<char>::empty()
    } else if ts.len() == 1 {
        ts[0]
    } else {
        join_comma(ts.drop_last()) + seq![','] + ts.last()
    }
}

/// The operand texts of the words after the mnemonic: from the first word
/// that opens with `[`, all remaining words form one memory operand; a shift
/// mnemonic followed by its `#amount` forms one operand.
pub open spec fn operand_texts(ts: Seq<Seq<char>>) -> Seq<Seq<char>>
    decreases ts.len(),
{
    if ts.len() == 0 {
        ts
    } else if starts_with(ts[0], seq!['[']) {
        seq![join_comma(ts)]
    } else if ts.len() >= 2 && is_shift_name(ts[0]) && starts_with(ts[1], seq!['#']) {
        seq![ts[0] + ts[1]] + operand_texts(ts.skip(2))
    } else {
        seq![ts[0]] + operand_texts(ts.skip(1))
    }
}

/// The variant of an operand, without its contents.
#[derive(Debug, Clone, Copy, PartialEq, Eq, Structural)]
pub enum OpKind {
    Register,
    Immediate,
    Memory,
    Bitwise,
    VectorRegister,
    Vector,
    VectorAccess,
    Label,
    Address,
    Other,
}

pub open spec fn kind_of(o: OperandModel) -> OpKind {
    match o {
        OperandModel::Register(..) => OpKind::Register,
        OperandModel::Immediate(..) => OpKind::Immediate,
        OperandModel::Memory(..) => OpKind::Memory,
        OperandModel::Bitwise(..) => OpKind::Bitwise,
        OperandModel::VectorRegister(..) => OpKind::VectorRegister,
        OperandModel::Vector(..) => OpKind::Vector,
        OperandModel::VectorAccess(..) => OpKind::VectorAccess,
        OperandModel::Label(..) => OpKind::Label,
        OperandModel::Address(..) => OpKind::Address,
        OperandModel::Other => OpKind::Other,
    }
}

/// Some operand in `ops` is of kind `k`.
pub open spec fn has_kind(ops: Seq<OperandModel>, k: OpKind) -> bool {
    exists|i: int| 0 <= i < ops.len() && #[trigger] kind_of(ops[i]) == k
}

/// A register, an immediate or a shift.
pub open spec fn is_scalar_kind(k: OpKind) -> bool {
    k == OpKind::Register || k == OpKind::Immediate || k == OpKind::Bitwise
}

/// Every operand in `ops` is a register, an immediate or a shift.
pub open spec fn all_scalar(ops: Seq<OperandModel>) -> bool {
    forall|i: int| 0 <= i < ops.len() ==> is_scalar_kind(#[trigger] kind_of(ops[i]))
}

/// Some operand in `ops` is a vector register, a vector or a vector element.
pub open spec fn has_simd(ops: Seq<OperandModel>) -> bool {
    has_kind(ops, OpKind::VectorRegister) || has_kind(ops, OpKind::Vector) || has_kind(
        ops,
        OpKind::VectorAccess,
    )
}

/// Mnemonics of branches and returns.
pub open spec fn is_control_flow_opcode(opcode: Seq<char>) -> bool {
    starts_with(opcode, seq!['b']) || starts_with(opcode, seq!['j']) || starts_with(
        opcode,
        seq!['c', 'b'],
    ) || starts_with(opcode, seq!['t', 'b']) || contains_text(opcode, seq!['a', 'd', 'r'])
        || opcode == seq!['r', 'e', 't']
}

/// The kind of an instruction with this mnemonic and these operands.
pub open spec fn instruction_type_of(opcode: Seq<char>, ops: Seq<OperandModel>) -> InstructionType {
    if ops.len() == 0 {
        if ends_with(opcode, seq![':']) {
            InstructionType::Label
        } else {
            InstructionType::Other
        }
    } else if has_kind(ops, OpKind::VectorAccess) || ((has_kind(ops, OpKind::Vector) || has_kind(
        ops,
        OpKind::VectorRegister,
    )) && (has_kind(ops, OpKind::Register) || has_kind(ops, OpKind::Memory))) {
        InstructionType::SIMDManagement
    } else if has_kind(ops, OpKind::Memory) {
        InstructionType::Memory
    } else if ops.len() > 2 && all_scalar(ops) {
        InstructionType::Arithmetic
    } else if has_kind(ops, OpKind::Vector) || has_kind(ops, OpKind::VectorRegister) {
        InstructionType::SIMDArithmetic
    } else if has_kind(ops, OpKind::Address) {
        InstructionType::Other
    } else if is_control_flow_opcode(opcode) {
        InstructionType::ControlFlow
    } else {
        InstructionType::Other
    }
}

/// The instruction that the line `input` denotes, or `None` where it has no
/// mnemonic or an operand denotes nothing.
pub open spec fn instruction_spec(input: Seq<char>) -> Option<InstructionModel> {
    let toks = words(input, word_separators());
    if toks.len() == 0 {
        None
    } else {
        let texts = operand_texts(toks.drop_first());
        if forall|k: int| 0 <= k < texts.len() ==> (#[trigger] operand_spec(texts[k])) is Some {
            let ops = texts.map_values(|t: Seq<char>| operand_spec(t)->0);
            Some(
                InstructionModel {
                    ty: instruction_type_of(toks[0], ops),
                    opcode: toks[0],
                    operands: ops,
                },
            )
        } else {
            None
        }
    }
}


/// The number of lanes of an arrangement (one for a single element).
pub open spec fn arrangement_lanes(a: Arrangement) -> nat {
    match a {
        Arrangement::B8 => 8,
        Arrangement::B16 => 16,
        Arrangement::H4 => 4,
        Arrangement::H8 => 8,
        Arrangement::S2 => 2,
        Arrangement::S4 => 4,
        Arrangement::D2 => 2,
        _ => 1,
    }
}

/// The width in bits of one lane of an arrangement.
pub open spec fn arrangement_bits(a: Arrangement) -> nat {
    match a {
        Arrangement::B8 | Arrangement::B16 | Arrangement::B => 8,
        Arrangement::H4 | Arrangement::H8 | Arrangement::H => 16,
        Arrangement::S2 | Arrangement::S4 | Arrangement::S => 32,
        Arrangement::D2 | Arrangement::D => 64,
    }
}

/// The value of a decimal digit.
pub open spec fn digit_value(c: char) -> int {
    c as int - '0' as int
}

/// An arrangement suffix says what it denotes: its leading number is the
/// count of lanes (one where there is none), its letter the lane width
/// (`b` 8, `h` 16, `s` 32, `d` 64 bits), the lanes fill 64 or 128 bits or
/// are a single element, and the arrangement's name is the suffix again.
pub proof fn law_arrangement_suffix_meaning(s: Seq<char>)
    requires
        arrangement_of(s) is Some,
    ensures
        ({
            let a = arrangement_of(s)->0;
            &&& crate::computer::arrangement_name(a) == s
            &&& s.len() == 1 ==> arrangement_lanes(a) == 1
            &&& s.len() == 2 ==> arrangement_lanes(a) == digit_value(s[0])
            &&& s.len() == 3 ==> arrangement_lanes(a) == 10 * digit_value(s[0]) + digit_value(s[1])
            &&& s.last() == 'b' ==> arrangement_bits(a) == 8
            &&& s.last() == 'h' ==> arrangement_bits(a) == 16
            &&& s.last() == 's' ==> arrangement_bits(a) == 32
            &&& s.last() == 'd' ==> arrangement_bits(a) == 64
            &&& s.len() > 1 ==> (arrangement_lanes(a) * arrangement_bits(a) == 64 || arrangement_lanes(a)
                * arrangement_bits(a) == 128)
        }),
{
    if s == seq!['8', 'b'] {
        assert(s.len() == 2 && s[0] == '8' && s[1] == 'b' && s.last() == 'b');
        assert(arrangement_lanes(Arrangement::B16) * arrangement_bits(Arrangement::B16) == 128) by (nonlinear_arith);
        assert(arrangement_lanes(Arrangement::B8) * arrangement_bits(Arrangement::B8) == 64) by (nonlinear_arith);
    } else if s == seq!['1', '6', 'b'] {
        assert(s.len() == 3 && s[0] == '1' && s[1] == '6' && s[2] == 'b' && s.last() == 'b');
    } else if s == seq!['4', 'h'] {
        assert(s.len() == 2 && s[0] == '4' && s[1] == 'h' && s.last() == 'h');
        assert(arrangement_lanes(Arrangement::H8) * arrangement_bits(Arrangement::H8) == 128) by (nonlinear_arith);
        assert(arrangement_lanes(Arrangement::H4) * arrangement_bits(Arrangement::H4) == 64) by (nonlinear_arith);
    } else if s == seq!['8', 'h'] {
        assert(s.len() == 2 && s[0] == '8' && s[1] == 'h' && s.last() == 'h');
    } else if s == seq!['2', 's'] {
        assert(s.len() == 2 && s[0] == '2' && s[1] == 's' && s.last() == 's');
        assert(arrangement_lanes(Arrangement::S4) * arrangement_bits(Arrangement::S4) == 128) by (nonlinear_arith);
        assert(arrangement_lanes(Arrangement::S2) * arrangement_bits(Arrangement::S2) == 64) by (nonlinear_arith);
    } else if s == seq!['4', 's'] {
        assert(s.len() == 2 && s[0] == '4' && s[1] == 's' && s.last() == 's');
    } else if s == seq!['2', 'd'] {
        assert(s.len() == 2 && s[0] == '2' && s[1] == 'd' && s.last() == 'd');
        assert(arrangement_lanes(Arrangement::D2) * arrangement_bits(Arrangement::D2) == 128) by (nonlinear_arith);
    } else if s == seq!['d'] {
        assert(s.len() == 1 && s[0] == 'd' && s.last() == 'd');
    } else if s == seq!['s'] {
        assert(s.len() == 1 && s[0] == 's' && s.last() == 's');
    } else if s == seq!['h'] {
        assert(s.len() == 1 && s[0] == 'h' && s.last() == 'h');
    } else if s == seq!['b'] {
        assert(s.len() == 1 && s[0] == 'b' && s.last() == 'b');
    }
}

/// A line that the parser files as a SIMD instruction has a vector register,
/// a vector or a vector element among its operands, so `is_simd` holds of it.
pub proof fn law_simd_instructions_have_vector_operands(input: Seq<char>)
    requires
        instruction_spec(input) is Some,
    ensures
        ({
            let i = instruction_spec(input)->0;
            (i.ty == InstructionType::SIMDArithmetic || i.ty == InstructionType::SIMDManagement) ==> has_simd(
                i.operands,
            )
        }),
{
}

// ---------------------------------------------------------------------------
// Executable integer expressions
// ---------------------------------------------------------------------------

proof fn lemma_last_index_is(s: Seq<char>, c: char, k: int)
    requires
        -1 <= k < s.len(),
        k >= 0 ==> s[k] == c,
        forall|m: int| k < m < s.len() ==> s[m] != c,
    ensures
        last_index(s, c) == k,
    decreases s.len(),
{
    if s.len() > 0 && s.last() != c {
        assert forall|m: int| k < m < s.drop_last().len() implies s.drop_last()[m] != c by {
            assert(s.drop_last()[m] == s[m]);
        }
        if k >= 0 {
            assert(s.drop_last()[k] == s[k]);
        }
        lemma_last_index_is(s.drop_last(), c, k);
    }
}

/// Position of the last `c` in `s`, as `last_index` (-1 becomes `None`).
fn find_last(s: &[char], c: char) -> (r: Option<usize>)
    ensures
        match r {
            Some(k) => k as int == last_index(s@, c) && k < s@.len(),
            None => last_index(s@, c) == -1,
        },
{
    let mut j: usize = s.len();
    while j > 0
        invariant
            j <= s@.len(),
            forall|m: int| j <= m < s@.len() ==> s@[m] != c,
        decreases j,
    {
        if s[j - 1] == c {
            proof {
                lemma_last_index_is(s@, c, j - 1);
            }
            return Some(j - 1);
        }
        j = j - 1;
    }
    proof {
        lemma_last_index_is(s@, c, -1);
    }
    None
}

/// The part of `s` left by `int_trim`.
fn int_trim_exec(s: &[char]) -> (r: &[char])
    ensures
        r@ == int_trim(s@),
{
    let space = [' '];
    let hash = ['#'];
    let open = ['('];
    let close = [')'];
    assert(space@ =~= seq![' '] && hash@ =~= seq!['#'] && open@ =~= seq!['('] && close@ =~= seq![')']);
    let (a, b) = trim_bounds(s, &space);
    let s1 = slice_range(s, a, b);
    let (a, b) = trim_bounds(s1, &hash);
    let s2 = slice_range(s1, a, b);
    let (a, b) = trim_bounds(s2, &open);
    let s3 = slice_range(s2, a, b);
    let (a, b) = trim_bounds(s3, &close);
    slice_range(s3, a, b)
}

fn plain_value_exec(v: &[char]) -> (r: Option<i64>)
    ensures
        r == plain_value(v@),
{
    if contains_char(v, 'x') {
        if starts_with_chars(v, &['0', 'x']) {
            match parse_hex_i128_exec(slice_from(v, 2)) {
                Some(h) => Some(h as i64),
                None => None,
            }
        } else {
            None
        }
    } else {
        let cleaned = remove_chars_exec(v, &['(', ')', ',', '"', '.', ';', ':', '\'', '#']);
        parse_i64_exec(cleaned.as_slice())
    }
}

fn add_chain_exec(u: &[char]) -> (r: Option<i64>)
    ensures
        r == add_chain(u@),
    decreases u@.len(),
{
    match find_last(u, '+') {
        Some(k) => {
            let n = u.len();
            assert(k < n);
            let left = add_chain_exec(slice_range(u, 0, k));
            let right = plain_value_exec(int_trim_exec(slice_from(u, k + 1)));
            assert(u@.subrange(0, k as int) =~= u@.take(k as int));
            assert(u@.subrange(k + 1, u@.len() as int) =~= u@.skip(k + 1));
            match (left, right) {
                (Some(x), Some(y)) => x.checked_add(y),
                _ => None,
            }
        },
        None => {
            match plain_value_exec(int_trim_exec(u)) {
                Some(y) => 1i64.checked_add(y),
                None => None,
            }
        },
    }
}

fn sum_value_exec(p: &[char]) -> (r: Option<i64>)
    ensures
        r == sum_value(p@),
{
    let v = int_trim_exec(p);
    if contains_char(v, '+') {
        add_chain_exec(v)
    } else {
        plain_value_exec(v)
    }
}

fn mul_chain_exec(u: &[char]) -> (r: Option<i64>)
    ensures
        r == mul_chain(u@),
    decreases u@.len(),
{
    match find_last(u, '*') {
        Some(k) => {
            let n = u.len();
            assert(k < n);
            let left = mul_chain_exec(slice_range(u, 0, k));
            let right = sum_value_exec(slice_from(u, k + 1));
            assert(u@.subrange(0, k as int) =~= u@.take(k as int));
            assert(u@.subrange(k + 1, u@.len() as int) =~= u@.skip(k + 1));
            match (left, right) {
                (Some(x), Some(y)) => x.checked_mul(y),
                _ => None,
            }
        },
        None => {
            match sum_value_exec(u) {
                Some(y) => 1i64.checked_mul(y),
                None => None,
            }
        },
    }
}

/// `string_to_int_value` of `s`.
pub fn string_to_int_chars(s: &[char]) -> (r: Option<i64>)
    ensures
        r == string_to_int_value(s@),
{
    let v = int_trim_exec(s);
    if contains_char(v, '*') {
        mul_chain_exec(v)
    } else if contains_char(v, '+') {
        add_chain_exec(v)
    } else {
        plain_value_exec(v)
    }
}

/// Reads an integer expression such as `#16`, `0x1f`, `2*4` or `(8)`: a
/// product of `+`-chains of numbers, where a chain `a+b+...` counts from one
/// (`1+a+b+...`).
pub fn string_to_int(s: &str) -> (r: i64)
    requires
        string_to_int_value(s@) is Some,
    ensures
        Some(r) == string_to_int_value(s@),
{
    let v = to_chars(s);
    match string_to_int_chars(v.as_slice()) {
        Some(n) => n,
        None => 0,
    }
}


// ---------------------------------------------------------------------------
// Executable operand parsing
// ---------------------------------------------------------------------------

pub open spec fn opt_view(r: Option<Operand>) -> Option<OperandModel> {
    match r {
        Some(o) => Some(o@),
        None => None,
    }
}

fn arrangement_from_chars(s: &[char]) -> (r: Option<Arrangement>)
    ensures
        r == arrangement_of(s@),
{
    let b8 = ['8', 'b'];
    let b16 = ['1', '6', 'b'];
    let h4 = ['4', 'h'];
    let h8 = ['8', 'h'];
    let s2 = ['2', 's'];
    let s4 = ['4', 's'];
    let d2 = ['2', 'd'];
    let d = ['d'];
    let ss = ['s'];
    let h = ['h'];
    let b = ['b'];
    assert(b8@ =~= seq!['8', 'b'] && b16@ =~= seq!['1', '6', 'b'] && h4@ =~= seq!['4', 'h']
        && h8@ =~= seq!['8', 'h'] && s2@ =~= seq!['2', 's'] && s4@ =~= seq!['4', 's'] && d2@
        =~= seq!['2', 'd'] && d@ =~= seq!['d'] && ss@ =~= seq!['s'] && h@ =~= seq!['h'] && b@
        =~= seq!['b']);
    if eq_chars(s, &b8) {
        Some(Arrangement::B8)
    } else if eq_chars(s, &b16) {
        Some(Arrangement::B16)
    } else if eq_chars(s, &h4) {
        Some(Arrangement::H4)
    } else if eq_chars(s, &h8) {
        Some(Arrangement::H8)
    } else if eq_chars(s, &s2) {
        Some(Arrangement::S2)
    } else if eq_chars(s, &s4) {
        Some(Arrangement::S4)
    } else if eq_chars(s, &d2) {
        Some(Arrangement::D2)
    } else if eq_chars(s, &d) {
        Some(Arrangement::D)
    } else if eq_chars(s, &ss) {
        Some(Arrangement::S)
    } else if eq_chars(s, &h) {
        Some(Arrangement::H)
    } else if eq_chars(s, &b) {
        Some(Arrangement::B)
    } else {
        None
    }
}

/// The register number after the one-byte first character of `s`.
fn number_after_first(s: &[char]) -> (r: Option<usize>)
    ensures
        first_is_ascii(s@) ==> r == parse_usize(s@.skip(1)),
        !first_is_ascii(s@) ==> r is None,
{
    if s.len() > 0 && (s[0] as u32) < 128 {
        let rest = slice_from(s, 1);
        assert(rest@ =~= s@.skip(1));
        parse_usize_exec(rest)
    } else {
        None
    }
}

fn vector_operand_exec(v: &[char]) -> (r: Option<Operand>)
    ensures
        opt_view(r) == vector_operand_spec(v@),
{
    let dot = ['.'];
    assert(dot@ =~= seq!['.']);
    if contains_char(v, '.') {
        let (base, arr, _) = fields01(v, &dot);
        proof {
            lemma_first_index_contains(v@, seq!['.']);
            let k = choose|k: int| 0 <= k < v@.len() && v@[k] == '.';
            assert(seq!['.'].contains(v@[k]));
        }
        if contains_char(arr, '[') {
            let br = ['[', ']'];
            assert(br@ =~= seq!['[', ']']);
            let (sz, idx_text, _) = fields01(arr, &br);
            proof {
                lemma_first_index_contains(arr@, seq!['[', ']']);
                let k = choose|k: int| 0 <= k < arr@.len() && arr@[k] == '[';
                assert(seq!['[', ']'].contains(arr@[k]));
            }
            let ar = arrangement_from_chars(sz);
            let idx = string_to_int_chars(idx_text);
            match (ar, idx) {
                (Some(a), Some(i)) => {
                    if base.len() > 0 && (base[0] as u32) < 128 {
                        match number_after_first(base) {
                            Some(n) => Some(Operand::VectorAccess(RePrefix::V, n, a, i)),
                            None => None,
                        }
                    } else {
                        None
                    }
                },
                _ => None,
            }
        } else {
            match arrangement_from_chars(arr) {
                Some(a) => {
                    if base.len() > 0 && (base[0] as u32) < 128 {
                        match number_after_first(base) {
                            Some(n) => Some(Operand::Vector(RePrefix::V, n, a)),
                            None => None,
                        }
                    } else {
                        None
                    }
                },
                None => None,
            }
        }
    } else {
        match number_after_first(v) {
            Some(n) => Some(Operand::VectorRegister(RePrefix::V, n)),
            None => None,
        }
    }
}

fn memory_operand_exec(v: &[char]) -> (r: Option<Operand>)
    ensures
        opt_view(r) == memory_operand_spec(v@),
{
    let comma = [','];
    let brackets = ['[', ']', ','];
    let offset_trim = ['[', ']', ',', '#', '!'];
    assert(comma@ =~= seq![','] && brackets@ =~= bracket_chars() && offset_trim@ =~= offset_chars());
    let (b, second, has_second) = fields01(v, &comma);
    let (lo, hi) = trim_bounds(b, &brackets);
    let base = slice_range(b, lo, hi);
    let mut off: Option<i64> = None;
    if has_second {
        let (x, y) = trim_bounds(second, &offset_trim);
        off = string_to_int_chars(slice_range(second, x, y));
        if off.is_none() {
            return None;
        }
    }
    let indexing = if contains_char(v, '!') {
        Some(false)
    } else if contains_char(b, ']') && has_second {
        Some(true)
    } else {
        None
    };
    let sp = ['s', 'p'];
    assert(sp@ =~= seq!['s', 'p']);
    if eq_chars(base, &sp) {
        Some(Operand::Memory(RePrefix::Sp, 0, off, None, indexing))
    } else if base.len() > 0 && (base[0] == 'x' || base[0] == 'w') {
        let prefix = if base[0] == 'x' {
            RePrefix::X
        } else {
            RePrefix::W
        };
        match number_after_first(base) {
            Some(num) => Some(Operand::Memory(prefix, num, off, None, indexing)),
            None => None,
        }
    } else {
        None
    }
}

fn other_operand_exec(a: &str, v: &[char]) -> (r: Option<Operand>)
    requires
        v@ == a@,
    ensures
        opt_view(r) == other_operand_spec(v@),
{
    let hash = ['#'];
    assert(hash@ =~= seq!['#']);
    if starts_with_chars(v, &hash) {
        let k = trim_start_len(v, &hash);
        match parse_i64_exec(slice_from(v, k)) {
            Some(n) => Some(Operand::Immediate(n)),
            None => match string_to_int_chars(v) {
                Some(n) => Some(Operand::Immediate(n)),
                None => None,
            },
        }
    } else if contains_char(v, '@') {
        Some(Operand::Address(a.to_owned(), 0))
    } else {
        let (f0, f1, _) = fields01(v, &hash);
        if contains_char(v, '#') && !contains_char(v, '[') && f0.len() > 0 {
            proof {
                lemma_first_index_contains(v@, seq!['#']);
                let k = choose|k: int| 0 <= k < v@.len() && v@[k] == '#';
                assert(seq!['#'].contains(v@[k]));
            }
            match parse_i64_exec(f1) {
                Some(n) => {
                    let op = substring(a, 0, f0.len());
                    assert(op@ =~= f0@);
                    Some(Operand::Bitwise(op, n))
                },
                None => None,
            }
        } else if contains_char(v, 'v') {
            vector_operand_exec(v)
        } else if contains_char(v, '[') || contains_char(v, ']') {
            memory_operand_exec(v)
        } else if v.len() > 0 {
            Some(Operand::Label(a.to_owned()))
        } else {
            Some(Operand::Other)
        }
    }
}

/// The operand that `a` denotes, or `None` where `operand_spec` has none.
pub fn parse_operand(a: &str) -> (r: Option<Operand>)
    ensures
        opt_view(r) == operand_spec(a@),
{
    let chars = to_chars(a);
    let v = chars.as_slice();
    let x = ['x'];
    let z = ['z'];
    let w = ['w'];
    let fp = ['f', 'p'];
    let sp = ['s', 'p'];
    let ra = ['r', 'a'];
    let ze = ['z', 'e'];
    assert(x@ =~= seq!['x'] && z@ =~= seq!['z'] && w@ =~= seq!['w'] && fp@ =~= seq!['f', 'p']
        && sp@ =~= seq!['s', 'p'] && ra@ =~= seq!['r', 'a'] && ze@ =~= seq!['z', 'e']);
    if starts_with_chars(v, &x) || starts_with_chars(v, &z) || starts_with_chars(v, &w)
        || starts_with_chars(v, &fp) || starts_with_chars(v, &sp) {
        if eq_chars(v, &sp) {
            Some(Operand::Register(RePrefix::Sp, 0))
        } else if eq_chars(v, &fp) {
            Some(Operand::Register(RePrefix::Fp, 0))
        } else if eq_chars(v, &ra) {
            Some(Operand::Register(RePrefix::Ra, 0))
        } else if eq_chars(v, &ze) {
            Some(Operand::Register(RePrefix::Ze, 0))
        } else {
            let rest = slice_from(v, 1);
            assert(rest@ =~= v@.skip(1));
            match parse_usize_exec(rest) {
                Some(num) => {
                    if v[0] == 'x' {
                        Some(Operand::Register(RePrefix::X, num))
                    } else if v[0] == 'w' {
                        Some(Operand::Register(RePrefix::W, num))
                    } else {
                        None
                    }
                },
                None => other_operand_exec(a, v),
            }
        }
    } else {
        other_operand_exec(a, v)
    }
}

/// The operand that the text `a` denotes.
pub fn operand_from_string(a: String) -> (r: Operand)
    requires
        operand_spec(a@) is Some,
    ensures
        Some(r@) == operand_spec(a@),
{
    match parse_operand(a.as_str()) {
        Some(o) => o,
        None => Operand::Other,
    }
}

impl Arrangement {
    /// The arrangement that a suffix such as `16b` or `d` names.
    pub fn from_string(s: &str) -> (r: Arrangement)
        requires
            arrangement_of(s@) is Some,
        ensures
            Some(r) == arrangement_of(s@),
    {
        let v = to_chars(s);
        match arrangement_from_chars(v.as_slice()) {
            Some(a) => a,
            None => Arrangement::B,
        }
    }
}

/// The register file and number of a register, vector register or memory
/// operand.
pub fn register_to_tuple(r: &Operand) -> (t: (RePrefix, usize))
    requires
        r is Register || r is VectorRegister || r is Memory,
    ensures
        match r@ {
            OperandModel::Register(p, n) => t == (p, n),
            OperandModel::VectorRegister(p, n) => t == (p, n),
            OperandModel::Memory(p, n, _, _, _) => t == (p, n),
            _ => false,
        },
{
    match r {
        Operand::Register(prefix, index) => (*prefix, *index),
        Operand::VectorRegister(prefix, index) => (*prefix, *index),
        Operand::Memory(prefix, index, _, _, _) => (*prefix, *index),
        _ => (RePrefix::X, 0),
    }
}


// ---------------------------------------------------------------------------
// Executable instruction parsing
// ---------------------------------------------------------------------------

fn op_kind(o: &Operand) -> (k: OpKind)
    ensures
        k == kind_of(o@),
{
    match o {
        Operand::Register(..) => OpKind::Register,
        Operand::Immediate(..) => OpKind::Immediate,
        Operand::Memory(..) => OpKind::Memory,
        Operand::Bitwise(..) => OpKind::Bitwise,
        Operand::VectorRegister(..) => OpKind::VectorRegister,
        Operand::Vector(..) => OpKind::Vector,
        Operand::VectorAccess(..) => OpKind::VectorAccess,
        Operand::Label(..) => OpKind::Label,
        Operand::Address(..) => OpKind::Address,
        Operand::Other => OpKind::Other,
    }
}

/// Whether some operand is of kind `k`.
fn any_kind(ops: &[Operand], k: OpKind) -> (r: bool)
    ensures
        r == has_kind(operands_view(ops@), k),
{
    let mut i: usize = 0;
    while i < ops.len()
        invariant
            i <= ops@.len(),
            forall|j: int| 0 <= j < i ==> kind_of(#[trigger] ops@[j]@) != k,
        decreases ops@.len() - i,
    {
        if op_kind(&ops[i]) == k {
            assert(operands_view(ops@)[i as int] == ops@[i as int]@);
            return true;
        }
        i = i + 1;
    }
    proof {
        assert forall|j: int| 0 <= j < operands_view(ops@).len() implies #[trigger] kind_of(
            operands_view(ops@)[j],
        ) != k by {
            assert(operands_view(ops@)[j] == ops@[j]@);
        }
    }
    false
}

/// Whether every operand is a register, an immediate or a shift.
fn every_scalar(ops: &[Operand]) -> (r: bool)
    ensures
        r == all_scalar(operands_view(ops@)),
{
    let mut i: usize = 0;
    while i < ops.len()
        invariant
            i <= ops@.len(),
            forall|j: int| 0 <= j < i ==> is_scalar_kind(kind_of(#[trigger] ops@[j]@)),
        decreases ops@.len() - i,
    {
        let k = op_kind(&ops[i]);
        if !(k == OpKind::Register || k == OpKind::Immediate || k == OpKind::Bitwise) {
            assert(operands_view(ops@)[i as int] == ops@[i as int]@);
            return false;
        }
        i = i + 1;
    }
    proof {
        assert forall|j: int| 0 <= j < operands_view(ops@).len() implies is_scalar_kind(
            #[trigger] kind_of(operands_view(ops@)[j]),
        ) by {
            assert(operands_view(ops@)[j] == ops@[j]@);
        }
    }
    true
}

fn control_flow_opcode(op: &[char]) -> (r: bool)
    ensures
        r == is_control_flow_opcode(op@),
{
    let b = ['b'];
    let j = ['j'];
    let cb = ['c', 'b'];
    let tb = ['t', 'b'];
    let adr = ['a', 'd', 'r'];
    let ret = ['r', 'e', 't'];
    assert(b@ =~= seq!['b'] && j@ =~= seq!['j'] && cb@ =~= seq!['c', 'b'] && tb@ =~= seq![
        't',
        'b',
    ] && adr@ =~= seq!['a', 'd', 'r'] && ret@ =~= seq!['r', 'e', 't']);
    starts_with_chars(op, &b) || starts_with_chars(op, &j) || starts_with_chars(op, &cb)
        || starts_with_chars(op, &tb) || contains_chars(op, &adr) || eq_chars(op, &ret)
}

/// The kind of an instruction with this mnemonic and these operands.
pub fn match_instruction_type(opcode: &str, operands: &[Operand]) -> (r: InstructionType)
    ensures
        r == instruction_type_of(opcode@, operands_view(operands@)),
{
    let op = to_chars(opcode);
    if operands.len() == 0 {
        let colon = [':'];
        assert(colon@ =~= seq![':']);
        if ends_with_chars(op.as_slice(), &colon) {
            return InstructionType::Label;
        }
        return InstructionType::Other;
    }
    let vector_access = any_kind(operands, OpKind::VectorAccess);
    let vector = any_kind(operands, OpKind::Vector);
    let vector_register = any_kind(operands, OpKind::VectorRegister);
    let register = any_kind(operands, OpKind::Register);
    let memory = any_kind(operands, OpKind::Memory);
    if vector_access || ((vector || vector_register) && (register || memory)) {
        InstructionType::SIMDManagement
    } else if memory {
        InstructionType::Memory
    } else if operands.len() > 2 && every_scalar(operands) {
        InstructionType::Arithmetic
    } else if vector || vector_register {
        InstructionType::SIMDArithmetic
    } else if any_kind(operands, OpKind::Address) {
        InstructionType::Other
    } else if control_flow_opcode(op.as_slice()) {
        InstructionType::ControlFlow
    } else {
        InstructionType::Other
    }
}

pub open spec fn strings_view(v: Seq<String>) -> Seq<Seq<char>> {
    v.map_values(|s: String| s@)
}

proof fn lemma_join_step(ts: Seq<Seq<char>>, i: int, j: int)
    requires
        0 <= i < j < ts.len(),
    ensures
        join_comma(ts.subrange(i, j + 1)) == join_comma(ts.subrange(i, j)) + seq![','] + ts[j],
{
    let t = ts.subrange(i, j + 1);
    assert(t.drop_last() =~= ts.subrange(i, j));
}

/// Whether a shift mnemonic stands in `t`.
fn shift_name(t: &[char]) -> (r: bool)
    ensures
        r == is_shift_name(t@),
{
    let lsl = ['l', 's', 'l'];
    let lsr = ['l', 's', 'r'];
    let asr = ['a', 's', 'r'];
    let ror = ['r', 'o', 'r'];
    assert(lsl@ =~= seq!['l', 's', 'l'] && lsr@ =~= seq!['l', 's', 'r'] && asr@ =~= seq![
        'a',
        's',
        'r',
    ] && ror@ =~= seq!['r', 'o', 'r']);
    eq_chars(t, &lsl) || eq_chars(t, &lsr) || eq_chars(t, &asr) || eq_chars(t, &ror)
}

/// The operand texts of an instruction whose words stand at `toks` in
/// `input`, the mnemonic first.
fn operand_text_strings(input: &str, chars: &[char], toks: &Vec<(usize, usize)>) -> (r: Vec<String>)
    requires
        chars@ == input@,
        bounds_valid(input@, toks@),
        toks@.len() >= 1,
    ensures
        strings_view(r@) == operand_texts(bounds_text(input@, toks@).drop_first()),
{
    let ghost t = bounds_text(input@, toks@);
    let n = toks.len();
    let mut out: Vec<String> = Vec::new();
    let mut i: usize = 1;
    let open = ['['];
    let hash = ['#'];
    assert(open@ =~= seq!['['] && hash@ =~= seq!['#']);
    assert(t.drop_first() =~= t.skip(1));
    while i < n
        invariant
            1 <= i <= n,
            n == toks@.len(),
            n == t.len(),
            t == bounds_text(input@, toks@),
            chars@ == input@,
            bounds_valid(input@, toks@),
            open@ == seq!['['],
            hash@ == seq!['#'],
            operand_texts(t.drop_first()) == strings_view(out@) + operand_texts(t.skip(i as int)),
        decreases n - i,
    {
        let (lo, hi) = toks[i];
        assert(toks@[i as int].0 <= toks@[i as int].1 <= input@.len());
        let word = slice_range(chars, lo, hi);
        assert(word@ == t[i as int]);
        assert(t.skip(i as int)[0] == t[i as int]);
        if starts_with_chars(word, &open) {
            let mut joined = substring(input, lo, hi);
            let mut j: usize = i + 1;
            proof {
                assert(t.subrange(i as int, i + 1) =~= seq![t[i as int]]);
            }
            while j < n
                invariant
                    i < j <= n,
                    n == toks@.len(),
                    n == t.len(),
                    t == bounds_text(input@, toks@),
                    bounds_valid(input@, toks@),
                    joined@ == join_comma(t.subrange(i as int, j as int)),
                decreases n - j,
            {
                let (a, b) = toks[j];
                assert(toks@[j as int].0 <= toks@[j as int].1 <= input@.len());
                joined.append(",");
                proof {
                    reveal_strlit(",");
                }
                let piece = substring(input, a, b);
                joined.append(piece.as_str());
                proof {
                    lemma_join_step(t, i as int, j as int);
                }
                j = j + 1;
            }
            proof {
                assert(t.subrange(i as int, n as int) =~= t.skip(i as int));
            }
            let ghost before = out@;
            out.push(joined);
            assert(strings_view(out@) =~= strings_view(before).push(joined@));
            assert(operand_texts(t.skip(i as int)) == seq![join_comma(t.skip(i as int))]);
            assert(operand_texts(t.drop_first()) =~= strings_view(out@));
            assert(t.skip(n as int) =~= Seq::<Seq<char>>::empty());
            i = n;
        } else {
            let mut merged = false;
            if i + 1 < n {
                let (a, b) = toks[i + 1];
                assert(toks@[i + 1].0 <= toks@[i + 1].1 <= input@.len());
                let next = slice_range(chars, a, b);
                assert(next@ == t[i + 1]);
                assert(t.skip(i as int)[1] == t[i + 1]);
                if shift_name(word) && starts_with_chars(next, &hash) {
                    let mut text = substring(input, lo, hi);
                    let second = substring(input, a, b);
                    text.append(second.as_str());
                    let ghost before = out@;
                    out.push(text);
                    assert(strings_view(out@) =~= strings_view(before).push(t[i as int] + t[i + 1]));
                    assert(t.skip(i as int).skip(2) =~= t.skip(i + 2));
                    assert(operand_texts(t.skip(i as int)) == seq![t[i as int] + t[i + 1]] + operand_texts(t.skip(i + 2)));
                    assert(strings_view(out@) + operand_texts(t.skip(i + 2)) =~= strings_view(before)
                        + (seq![t[i as int] + t[i + 1]] + operand_texts(t.skip(i + 2))));
                    merged = true;
                    i = i + 2;
                }
            }
            if !merged {
                let text = substring(input, lo, hi);
                let ghost before = out@;
                out.push(text);
                assert(strings_view(out@) =~= strings_view(before).push(t[i as int]));
                assert(t.skip(i as int).skip(1) =~= t.skip(i + 1));
                assert(operand_texts(t.skip(i as int)) == seq![t[i as int]] + operand_texts(t.skip(i + 1)));
                assert(strings_view(out@) + operand_texts(t.skip(i + 1)) =~= strings_view(before)
                    + (seq![t[i as int]] + operand_texts(t.skip(i + 1))));
                i = i + 1;
            }
        }
    }
    assert(t.skip(n as int) =~= Seq::<Seq<char>>::empty());
    assert(strings_view(out@) + Seq::<Seq<char>>::empty() =~= strings_view(out@));
    out
}

/// The operands that the texts denote, or `None` where one denotes none.
fn parse_operands(texts: &Vec<String>) -> (r: Option<Vec<Operand>>)
    ensures
        match r {
            Some(ops) => (forall|j: int| 0 <= j < texts@.len() ==> (#[trigger] operand_spec(strings_view(texts@)[j])) is Some)
                && operands_view(ops@) == strings_view(texts@).map_values(|x: Seq<char>| operand_spec(x)->0),
            None => !(forall|j: int| 0 <= j < texts@.len() ==> (#[trigger] operand_spec(strings_view(texts@)[j])) is Some),
        },
{
    let ghost tv = strings_view(texts@);
    let mut operands: Vec<Operand> = Vec::new();
    let mut k: usize = 0;
    while k < texts.len()
        invariant
            k <= texts@.len(),
            tv == strings_view(texts@),
            operands@.len() == k,
            forall|j: int| 0 <= j < k ==> (#[trigger] operand_spec(tv[j])) is Some,
            forall|j: int| 0 <= j < k ==> Some(#[trigger] operands@[j]@) == operand_spec(tv[j]),
        decreases texts@.len() - k,
    {
        assert(tv[k as int] == texts@[k as int]@);
        match parse_operand(texts[k].as_str()) {
            Some(o) => {
                operands.push(o);
            },
            None => {
                return None;
            },
        }
        k = k + 1;
    }
    proof {
        let ops = tv.map_values(|x: Seq<char>| operand_spec(x)->0);
        assert(operands_view(operands@) =~= ops) by {
            assert forall|j: int| 0 <= j < ops.len() implies operands_view(operands@)[j] == ops[j] by {
                assert(Some(operands@[j]@) == operand_spec(tv[j]));
            }
        }
    }
    Some(operands)
}

impl Instruction {
    /// The instruction that the line `input` denotes, or `None` where
    /// `instruction_spec` has none.
    pub fn try_new(input: &str) -> (r: Option<Instruction>)
        ensures
            match r {
                Some(i) => instruction_spec(input@) == Some(i@),
                None => instruction_spec(input@) is None,
            },
    {
        let chars = to_chars(input);
        let seps = ['\t', ',', ' ', '{', '}'];
        assert(seps@ =~= word_separators());
        let toks = word_bounds(chars.as_slice(), &seps);
        let ghost t = bounds_text(input@, toks@);
        if toks.len() == 0 {
            return None;
        }
        let (lo, hi) = toks[0];
        assert(toks@[0].0 <= toks@[0].1 <= input@.len());
        let opcode = substring(input, lo, hi);
        assert(opcode@ == t[0]);
        let texts = operand_text_strings(input, chars.as_slice(), &toks);
        let ghost tv = strings_view(texts@);
        let operands = match parse_operands(&texts) {
            Some(ops) => ops,
            None => {
                return None;
            },
        };
        let ty = match_instruction_type(opcode.as_str(), operands.as_slice());
        let r = Instruction { ty, opcode, operands };
        Some(r)
    }

    /// Parses one line of assembly, such as `add x0, x1, #4` or
    /// `ldr x3, [x0, #16]`.
    pub fn new(input: String) -> (r: Self)
        requires
            instruction_spec(input@) is Some,
        ensures
            instruction_spec(input@) == Some(r@),
    {
        match Self::try_new(input.as_str()) {
            Some(i) => i,
            None => Instruction { ty: InstructionType::Other, opcode: String::new(), operands: Vec::new() },
        }
    }

    /// Whether an operand is a vector register, a vector or a vector element.
    pub fn is_simd(&self) -> (r: bool)
        ensures
            r == has_simd(self@.operands),
    {
        let ops = self.operands.as_slice();
        any_kind(ops, OpKind::VectorRegister) || any_kind(ops, OpKind::Vector) || any_kind(
            ops,
            OpKind::VectorAccess,
        )
    }

    /// Whether the line is a label.
    pub fn is_label(&self) -> (r: bool)
        ensures
            r == (self.ty == InstructionType::Label),
    {
        self.ty == InstructionType::Label
    }
}


/// Spacing does not change a parse: a separator (tab, comma, space or
/// brace) written next to another, before the mnemonic, or at the end of
/// the line leaves the instruction as it was.
pub proof fn law_extra_separator_same_instruction(p: Seq<char>, c: char, d: char, t: Seq<char>)
    requires
        word_separators().contains(c),
        word_separators().contains(d),
    ensures
        instruction_spec(p + seq![c, d] + t) == instruction_spec(p + seq![c] + t),
        instruction_spec(seq![d] + t) == instruction_spec(t),
        instruction_spec(p + seq![d]) == instruction_spec(p),
{
    lemma_words_extra_separator(p, c, d, t, word_separators());
}

} // verus!
