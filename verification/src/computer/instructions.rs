//! The execution of one instruction on the machine.
use vstd::prelude::*;
use crate::common::{
    AbstractComparison, AbstractExpression, ComparisonModel, ExecuteModel, ExecuteReturnType, ExprModel,
    FlagModel, FlagValue, MemorySafetyError, RegisterKind, RegisterModel, RegisterValue, copy_comparison,
    copy_register, generate_comparison, generate_expression, negated_op, shift_imm, shifted, text_is,
};
use crate::computer::instruction_aux::{
    arith_ok, arith_outcome, arith_sources, arith_written, cmn_flags, compare_flags, register_expr,
    second_source, shift_ok,
};
use crate::computer::memory::{load_ok, outcome, store_ok};
use crate::computer::{ARMCORTEXA, FlagsModel, readable, write_target};
use crate::instruction_parser::{
    Instruction, InstructionModel, InstructionType, Operand, OperandModel, RePrefix, operands_view, register_to_tuple,
};

verus! {

/// The bytes of the low `n` bytes of `x`, in reverse order.
pub open spec fn swapped(x: u64, n: nat) -> u64
    decreases n,
{
    if n == 0 {
        0
    } else {
        ((swapped(x, (n - 1) as nat) << 8u64) | ((x >> (8 * (n - 1)) as u64) & 0xffu64)) as u64
    }
}

/// `x` with its eight bytes in reverse order.
pub open spec fn swap_bytes_spec(x: i64) -> i64 {
    swapped(x as u64, 8) as i64
}

/// `x` with its eight bytes in reverse order.
fn swap_bytes(x: i64) -> (r: i64)
    ensures
        r == swap_bytes_spec(x),
{
    let u = x as u64;
    let mut acc: u64 = 0;
    for i in 0..8u64
        invariant
            acc == swapped(u, i as nat),
    {
        acc = (acc << 8u64) | ((u >> (8 * i)) & 0xffu64);
    }
    acc as i64
}

/// A fresh copy of an operand.
pub fn copy_operand(o: &Operand) -> (r: Operand)
    ensures
        r@ == o@,
{
    match o {
        Operand::Register(p, n) => Operand::Register(*p, *n),
        Operand::Immediate(v) => Operand::Immediate(*v),
        Operand::Memory(p, n, off, s, i) => Operand::Memory(
            *p,
            *n,
            *off,
            match s {
                Some(t) => Some(t.clone()),
                None => None,
            },
            *i,
        ),
        Operand::Bitwise(s, n) => Operand::Bitwise(s.clone(), *n),
        Operand::VectorRegister(p, n) => Operand::VectorRegister(*p, *n),
        Operand::Vector(p, n, a) => Operand::Vector(*p, *n, *a),
        Operand::VectorAccess(p, n, a, i) => Operand::VectorAccess(*p, *n, *a, *i),
        Operand::Label(s) => Operand::Label(s.clone()),
        Operand::Address(s, n) => Operand::Address(s.clone(), *n),
        Operand::Other => Operand::Other,
    }
}

/// A fresh copy of some operands.
pub fn copy_operands(ops: &Vec<Operand>) -> (r: Vec<Operand>)
    ensures
        operands_view(r@) == operands_view(ops@),
{
    let mut r: Vec<Operand> = Vec::new();
    for i in 0..ops.len()
        invariant
            r@.len() == i,
            forall|j: int| 0 <= j < i ==> (#[trigger] r@[j])@ == ops@[j]@,
    {
        r.push(copy_operand(&ops[i]));
    }
    assert(operands_view(r@) =~= operands_view(ops@));
    r
}

/// The model of an execution result.
pub open spec fn result_model(r: Result<ExecuteReturnType, String>) -> Result<ExecuteModel, Seq<char>> {
    match r {
        Ok(x) => Ok(x@),
        Err(e) => Err(e@),
    }
}

/// The result of an instruction whose checks answered `o`.
pub open spec fn checked(o: Option<Seq<char>>) -> Result<ExecuteModel, Seq<char>> {
    match o {
        None => went(ExecuteModel::Next),
        Some(m) => Err(m),
    }
}

/// The name a label operand gives.
pub open spec fn label_of(o: OperandModel) -> Seq<char> {
    match o {
        OperandModel::Label(l) => l,
        _ => Seq::empty(),
    }
}

/// The message of a branch on a flag that no instruction has set.
pub open spec fn unset_flag_message() -> Seq<char> {
    "Flag cannot be branched on since it has not been set within the program yet"@
}

/// A known number as a register value.
pub open spec fn immediate(v: i64) -> RegisterModel {
    RegisterModel { kind: RegisterKind::Immediate, base: None, offset: v }
}

/// The register that a memory operand takes its base address from.
pub open spec fn base_register(o: OperandModel) -> OperandModel {
    match o {
        OperandModel::Memory(p, n, _, _, _) => OperandModel::Register(p, n),
        _ => OperandModel::Other,
    }
}

/// The address a memory operand names: its base register's value plus its
/// offset.
pub open spec fn address_of(s: &ARMCORTEXA, o: OperandModel) -> RegisterModel {
    let r = s.read(base_register(o));
    let off = match o {
        OperandModel::Memory(_, _, Some(v), _, _) => v,
        _ => 0,
    };
    RegisterModel { kind: r.kind, base: r.base, offset: vstd::wrapping::i64_specs::wrapping_add(r.offset, off) }
}

/// The address eight bytes on.
pub open spec fn next_word(a: RegisterModel) -> RegisterModel {
    RegisterModel { kind: a.kind, base: a.base, offset: vstd::wrapping::i64_specs::wrapping_add(a.offset, 8) }
}

/// Whether `o` is a memory operand without pre- or post-indexing whose base
/// register can be read.
pub open spec fn plain_memory(o: OperandModel) -> bool {
    &&& o matches OperandModel::Memory(_, _, _, _, mode) && mode is None
    &&& readable(base_register(o))
}

/// `a op b` where `op` is the comparison `c`'s operator replaced by `op`.
pub open spec fn with_op(op: Seq<char>, c: ComparisonModel) -> ComparisonModel {
    ComparisonModel { op, left: c.left, right: c.right }
}

/// `f` applied to the two sources of an arithmetic instruction.
pub open spec fn arith_out(old: &ARMCORTEXA, sym: Seq<char>, ops: Seq<OperandModel>, f: spec_fn(i64, i64) -> i64) -> RegisterModel {
    arith_outcome(sym, old.read(ops[1]), second_source(ops, old.read(ops[2])), f(arith_sources(old, ops).0, arith_sources(old, ops).1))
}

/// `x` shifted right by `amount` as 64-bit shifts have it (the amount
/// taken modulo 64).
pub open spec fn shift_right(x: i64, amount: i64) -> i64 {
    vstd::wrapping::i64_specs::wrapping_shr(x, amount as u32)
}

/// The number of leading zero bits of `x`.
pub open spec fn leading_zero_count(x: i64) -> i64 {
    vstd::std_specs::bits::u64_leading_zeros(x as u64) as i64
}

/// The result of an instruction after which execution goes on with the
/// next one.
pub open spec fn proceed() -> Result<ExecuteModel, Seq<char>> {
    Ok(ExecuteModel::Next)
}

/// The result of an instruction that goes on as `m` says.
pub open spec fn went(m: ExecuteModel) -> Result<ExecuteModel, Seq<char>> {
    Ok(m)
}

/// The result of an instruction refused with the message `m`.
pub open spec fn refused(m: Seq<char>) -> Result<ExecuteModel, Seq<char>> {
    Err(m)
}

/// The model of a flag that may not be set.
pub open spec fn flag_of(f: Option<FlagValue>) -> Option<FlagModel> {
    crate::common::flag_model(f)
}

/// The program counter as a known number.
pub open spec fn pc_value(pc: usize) -> i64 {
    pc as i64
}

/// The branch of a conditional instruction on a known flag or a
/// comparison.
pub open spec fn branch_on(taken: bool, label: Seq<char>) -> Result<ExecuteModel, Seq<char>> {
    if taken {
        went(ExecuteModel::JumpLabel(label))
    } else {
        went(ExecuteModel::Next)
    }
}

impl<'ctx> ARMCORTEXA<'ctx> {
    /// The memory, labels, queue and alignment are those of `old`.
    pub open spec fn keeps_memory(&self, old: &Self) -> bool {
        &&& self.memory@ == old.memory@
        &&& self.memory_labels@ == old.memory_labels@
        &&& self.rw_queue@ == old.rw_queue@
        &&& self.alignment == old.alignment
        &&& self.context == old.context
        &&& self.solver == old.solver
    }

    /// The flags are `f`, or those of `old` where `f` is `None`.
    pub open spec fn flags_after(&self, old: &Self, f: Option<FlagsModel>) -> bool {
        match f {
            Some(flags) => self.flags() == flags,
            None => self.zero == old.zero && self.neg == old.neg && self.carry == old.carry && self.overflow == old.overflow,
        }
    }

    /// An arithmetic instruction `sym` with offsets computed by `f`, after
    /// which the flags are `flags`.
    pub open spec fn arith_step(
        &self,
        old: &Self,
        sym: Seq<char>,
        ops: Seq<OperandModel>,
        f: spec_fn(i64, i64) -> i64,
        flags: Option<FlagsModel>,
    ) -> bool {
        let out = arith_out(old, sym, ops, f);
        &&& self.register_effect(old, ops[0], out.kind, out.base, out.offset)
        &&& self.flags_after(old, flags)
        &&& self.keeps_memory(old)
    }

    /// Whether an arithmetic instruction can run in this state.
    pub open spec fn arith_defined(&self, op: Seq<char>, ops: Seq<OperandModel>) -> bool {
        if op == "add"@ || op == "sub"@ || op == "mul"@ || op == "umulh"@ || op == "and"@ || op == "orr"@ || op
            == "orn"@ || op == "eor"@ || op == "bic"@ || op == "adds"@ || op == "subs"@ || op == "ands"@ {
            arith_ok(self, ops)
        } else if op == "ror"@ || op == "lsl"@ || op == "lsr"@ {
            ops.len() >= 3 && readable(ops[1]) && readable(ops[2]) && write_target(ops[0]) is Some
        } else if op == "adc"@ || op == "adcs"@ || op == "sbc"@ || op == "sbcs"@ {
            self.carry matches Some(FlagValue::Real(_)) && arith_ok(self, ops)
        } else if op == "mov"@ || op == "movz"@ || op == "movk"@ {
            &&& ops.len() >= 2
            &&& readable(ops[1])
            &&& write_target(ops[0]) is Some
            &&& ops.len() > 2 ==> (ops[2] matches OperandModel::Bitwise(sop, n) && shift_ok(sop, self.read(ops[1]), n))
        } else if op == "clz"@ || op == "rev"@ || op == "rev32"@ || op == "rbit"@ {
            ops.len() >= 2 && readable(ops[1]) && write_target(ops[0]) is Some
        } else {
            false
        }
    }

    /// What an arithmetic instruction does.
    pub open spec fn arith_executed(&self, old: &Self, op: Seq<char>, ops: Seq<OperandModel>) -> bool {
        let add = |x: i64, y: i64| vstd::wrapping::i64_specs::wrapping_add(x, y);
        let sub = |x: i64, y: i64| vstd::wrapping::i64_specs::wrapping_sub(x, y);
        if op == "add"@ {
            self.arith_step(old, "+"@, ops, add, None)
        } else if op == "sub"@ {
            self.arith_step(old, "-"@, ops, sub, None)
        } else if op == "mul"@ || op == "umulh"@ {
            self.arith_step(old, "*"@, ops, |x: i64, y: i64| vstd::wrapping::i64_specs::wrapping_mul(x, y), None)
        } else if op == "and"@ {
            self.arith_step(old, "&"@, ops, |x: i64, y: i64| x & y, None)
        } else if op == "orr"@ {
            self.arith_step(old, "|"@, ops, |x: i64, y: i64| x | y, None)
        } else if op == "orn"@ {
            self.arith_step(old, "!|"@, ops, |x: i64, y: i64| x | !y, None)
        } else if op == "eor"@ {
            self.arith_step(old, "^"@, ops, |x: i64, y: i64| x ^ y, None)
        } else if op == "bic"@ {
            self.arith_step(old, "!&"@, ops, |x: i64, y: i64| x & !y, None)
        } else if op == "adds"@ {
            self.arith_step(old, "+"@, ops, add, cmn_flags(old.read(ops[0]), old.read(ops[1])))
        } else if op == "subs"@ {
            self.arith_step(old, "-"@, ops, sub, compare_flags(old.read(ops[0]), old.read(ops[1])))
        } else if op == "ror"@ || op == "lsl"@ || op == "lsr"@ {
            let r2 = old.read(ops[1]);
            let v = shift_right(r2.offset, old.read(ops[2]).offset);
            self.written(
                old,
                ops[0],
                r2.kind,
                Some(
                    ExprModel::Expression(
                        "ror"@,
                        Box::new(
                            match r2.base {
                                Some(b) => b,
                                None => ExprModel::Empty,
                            },
                        ),
                        Box::new(ExprModel::Immediate(v)),
                    ),
                ),
                v,
            )
        } else if op == "ands"@ {
            self.arith_step(old, "&"@, ops, |x: i64, y: i64| x & y, compare_flags(old.read(ops[0]), old.read(ops[1])))
        } else if op == "adc"@ {
            if old.carry == Some(FlagValue::Real(true)) {
                self.arith_step(
                    old,
                    "+"@,
                    ops,
                    |x: i64, y: i64| vstd::wrapping::i64_specs::wrapping_add(vstd::wrapping::i64_specs::wrapping_add(x, y), 1),
                    None,
                )
            } else {
                self.arith_step(old, "+"@, ops, add, None)
            }
        } else if op == "adcs"@ {
            let flags = cmn_flags(self.read(ops[1]), self.read(ops[2]));
            if old.carry == Some(FlagValue::Real(true)) {
                self.arith_step(
                    old,
                    "+"@,
                    ops,
                    |x: i64, y: i64| vstd::wrapping::i64_specs::wrapping_add(vstd::wrapping::i64_specs::wrapping_add(x, y), 1),
                    flags,
                )
            } else {
                self.arith_step(old, "+"@, ops, add, flags)
            }
        } else if op == "sbc"@ {
            if old.carry == Some(FlagValue::Real(true)) {
                self.arith_step(old, "-"@, ops, sub, None)
            } else {
                self.arith_step(
                    old,
                    "+"@,
                    ops,
                    |x: i64, y: i64| vstd::wrapping::i64_specs::wrapping_sub(vstd::wrapping::i64_specs::wrapping_sub(x, y), 1),
                    None,
                )
            }
        } else if op == "sbcs"@ {
            let flags = compare_flags(self.read(ops[1]), self.read(ops[2]));
            if old.carry == Some(FlagValue::Real(true)) {
                self.arith_step(old, "-"@, ops, sub, flags)
            } else {
                self.arith_step(
                    old,
                    "-"@,
                    ops,
                    |x: i64, y: i64| vstd::wrapping::i64_specs::wrapping_sub(vstd::wrapping::i64_specs::wrapping_sub(x, y), 1),
                    flags,
                )
            }
        } else if op == "clz"@ {
            let r1 = old.read(ops[1]);
            let n = if r1.kind == RegisterKind::Immediate {
                leading_zero_count(r1.offset)
            } else {
                0
            };
            self.written(old, ops[0], RegisterKind::Number, None, n)
        } else if op == "mov"@ || op == "movz"@ || op == "movk"@ {
            let r1 = old.read(ops[1]);
            let v = if ops.len() > 2 {
                match ops[2] {
                    OperandModel::Bitwise(sop, n) => shifted(sop, r1, n),
                    _ => r1,
                }
            } else {
                r1
            };
            self.written(old, ops[0], v.kind, v.base, v.offset)
        } else {
            let r1 = old.read(ops[1]);
            let base = match r1.base {
                Some(b) => Some(ExprModel::Expression("rev"@, Box::new(b), Box::new(ExprModel::Empty))),
                None => None,
            };
            self.written(old, ops[0], r1.kind, base, swap_bytes_spec(r1.offset))
        }
    }
}


fn add_offsets(x: i64, y: i64) -> (r: i64)
    ensures
        r == vstd::wrapping::i64_specs::wrapping_add(x, y),
{
    x.wrapping_add(y)
}

fn add_offsets_carry(x: i64, y: i64) -> (r: i64)
    ensures
        r == vstd::wrapping::i64_specs::wrapping_add(vstd::wrapping::i64_specs::wrapping_add(x, y), 1),
{
    x.wrapping_add(y).wrapping_add(1)
}

fn sub_offsets(x: i64, y: i64) -> (r: i64)
    ensures
        r == vstd::wrapping::i64_specs::wrapping_sub(x, y),
{
    x.wrapping_sub(y)
}

fn sub_offsets_borrow(x: i64, y: i64) -> (r: i64)
    ensures
        r == vstd::wrapping::i64_specs::wrapping_sub(vstd::wrapping::i64_specs::wrapping_sub(x, y), 1),
{
    x.wrapping_sub(y).wrapping_sub(1)
}

fn mul_offsets(x: i64, y: i64) -> (r: i64)
    ensures
        r == vstd::wrapping::i64_specs::wrapping_mul(x, y),
{
    x.wrapping_mul(y)
}

fn and_offsets(x: i64, y: i64) -> (r: i64)
    ensures
        r == x & y,
{
    x & y
}

fn or_offsets(x: i64, y: i64) -> (r: i64)
    ensures
        r == x | y,
{
    x | y
}

fn or_not_offsets(x: i64, y: i64) -> (r: i64)
    ensures
        r == x | !y,
{
    x | !y
}

fn xor_offsets(x: i64, y: i64) -> (r: i64)
    ensures
        r == x ^ y,
{
    x ^ y
}

fn and_not_offsets(x: i64, y: i64) -> (r: i64)
    ensures
        r == x & !y,
{
    x & !y
}

/// Whether the carry flag is known to be set.
fn carry_is_set(carry: &Option<FlagValue>) -> (r: bool)
    ensures
        r == (*carry == Some(FlagValue::Real(true))),
{
    match carry {
        Some(FlagValue::Real(b)) => *b,
        _ => false,
    }
}

/// The register number that `cset` writes: that of its first operand.
pub open spec fn tuple_of(o: OperandModel) -> (RePrefix, usize) {
    match o {
        OperandModel::Register(p, n) => (p, n),
        OperandModel::VectorRegister(p, n) => (p, n),
        OperandModel::Memory(p, n, _, _, _) => (p, n),
        _ => (RePrefix::X, 0),
    }
}

/// The flag value of a known truth as a number, one or zero.
pub open spec fn bit(b: bool) -> i64 {
    if b {
        1
    } else {
        0
    }
}

impl<'ctx> ARMCORTEXA<'ctx> {
    /// Whether the flags for a signed comparison can be branched on: where
    /// all three are set, they are known, or the zero flag is a comparison.
    pub open spec fn signed_flags_usable(&self) -> bool {
        (self.zero is Some && self.neg is Some && self.overflow is Some) ==> (self.zero matches Some(
            FlagValue::Abstract(_),
        ) || (self.zero matches Some(FlagValue::Real(_)) && self.neg matches Some(FlagValue::Real(_))
            && self.overflow matches Some(FlagValue::Real(_))))
    }

    /// Whether a conditional select with condition `cond` can run.
    pub open spec fn csel_defined(&self, cond: Seq<char>, dest: OperandModel) -> bool {
        if cond == "cc"@ || cond == "lo"@ {
            self.carry is Some && (self.carry matches Some(FlagValue::Real(_)) ==> write_target(dest) is Some)
        } else if cond == "cs"@ {
            &&& self.carry matches Some(FlagValue::Real(_)) ==> write_target(dest) is Some
            &&& self.carry matches Some(FlagValue::Abstract(a)) ==> negated_op(a@.op) is Some
        } else if cond == "eq"@ {
            self.zero is Some && (self.zero matches Some(FlagValue::Real(_)) ==> write_target(dest) is Some)
        } else {
            false
        }
    }

    /// Whether a control flow instruction can run in this state.
    pub open spec fn control_defined(&self, op: Seq<char>, ops: Seq<OperandModel>) -> bool {
        if op == "adr"@ || op == "adrp"@ {
            ops.len() >= 2 && ops[1] is Label && write_target(ops[0]) is Some
        } else if op == "cbz"@ || op == "cbnz"@ {
            ops.len() >= 2 && readable(ops[0]) && ops[1] is Label
        } else if op == "b"@ || op == "bl"@ {
            ops.len() >= 1 && ops[0] is Label
        } else if op == "b.ne"@ || op == "bne"@ {
            &&& ops.len() >= 1
            &&& ops[0] is Label
            &&& self.zero matches Some(FlagValue::Abstract(c)) ==> negated_op(c@.op) is Some
        } else if op == "b.eq"@ || op == "beq"@ {
            ops.len() >= 1 && ops[0] is Label
        } else if op == "bgt"@ || op == "bt"@ || op == "b.gt"@ {
            ops.len() >= 1 && ops[0] is Label && self.signed_flags_usable()
        } else if op == "b.lt"@ {
            ops.len() >= 1 && (ops[0] is Label ==> self.signed_flags_usable())
        } else if op == "b.ls"@ || op == "b.le"@ || op == "b.cs"@ || op == "b.hs"@ || op == "bcs"@ || op == "b.cc"@
            || op == "b.lo"@ || op == "blo"@ {
            ops.len() >= 1 && ops[0] is Label
        } else if op == "cset"@ {
            &&& ops.len() >= 2
            &&& (ops[0] is Register || ops[0] is VectorRegister || ops[0] is Memory)
            &&& write_target(OperandModel::Register(tuple_of(ops[0]).0, tuple_of(ops[0]).1)) is Some
            &&& ops[1] is Label
            &&& (label_of(ops[1]) == "cs"@ || label_of(ops[1]) == "cc"@ || label_of(ops[1]) == "lo"@)
            &&& self.carry matches Some(FlagValue::Real(_))
        } else if op == "csel"@ {
            &&& ops.len() >= 4
            &&& readable(ops[1]) && readable(ops[2])
            &&& ops[3] is Label
            &&& self.csel_defined(label_of(ops[3]), ops[0])
        } else if op == "csetm"@ {
            &&& ops.len() >= 2
            &&& ops[1] is Label
            &&& label_of(ops[1]) == "eq"@
            &&& self.zero is Some
            &&& self.zero matches Some(FlagValue::Real(_)) ==> write_target(ops[0]) is Some
        } else {
            false
        }
    }

    /// What a conditional select does: where the flag is known, the
    /// destination gets the first or the second source; where it is a
    /// comparison, nothing changes and the choice is returned.
    pub open spec fn csel_executed(&self, old: &Self, cond: Seq<char>, ops: Seq<OperandModel>, r: Result<ExecuteModel, Seq<char>>) -> bool {
        let o1 = old.read(ops[1]);
        let o2 = old.read(ops[2]);
        let pick = |first: bool| if first { o1 } else { o2 };
        if cond == "cc"@ || cond == "lo"@ {
            match flag_of(old.carry) {
                Some(FlagModel::Real(b)) => r == proceed() && self.written(
                    old,
                    ops[0],
                    pick(b).kind,
                    pick(b).base,
                    pick(b).offset,
                ),
                Some(FlagModel::Abstract(a)) => *self == *old && r == went(ExecuteModel::Select(a, ops[0], o1, o2)),
                None => false,
            }
        } else if cond == "cs"@ {
            match flag_of(old.carry) {
                Some(FlagModel::Real(b)) => r == proceed() && self.written(
                    old,
                    ops[0],
                    pick(!b).kind,
                    pick(!b).base,
                    pick(!b).offset,
                ),
                Some(FlagModel::Abstract(a)) => *self == *old && r == went(
                    ExecuteModel::Select(with_op(negated_op(a.op)->0, a), ops[0], o1, o2),
                ),
                None => *self == *old && r == went(
                    ExecuteModel::Select(
                        ComparisonModel {
                            op: "=="@,
                            left: ExprModel::Abstract("c_flag"@),
                            right: ExprModel::Immediate(1),
                        },
                        ops[0],
                        o1,
                        o2,
                    ),
                ),
            }
        } else {
            match flag_of(old.zero) {
                Some(FlagModel::Real(z)) => r == proceed() && self.written(
                    old,
                    ops[0],
                    pick(z).kind,
                    pick(z).base,
                    pick(z).offset,
                ),
                Some(FlagModel::Abstract(a)) => *self == *old && r == went(ExecuteModel::Select(a, ops[0], o1, o2)),
                None => false,
            }
        }
    }

    /// The branch of a signed comparison `sym` (`>` or `<`), taken on
    /// known flags where `taken` says so.
    pub open spec fn signed_branch(&self, label: Seq<char>, sym: Seq<char>, less: bool) -> Result<ExecuteModel, Seq<char>> {
        match (flag_of(self.zero), flag_of(self.neg), flag_of(self.overflow)) {
            (Some(z), Some(n), Some(v)) => match z {
                FlagModel::Real(zb) => match (n, v) {
                    (FlagModel::Real(nb), FlagModel::Real(vb)) => branch_on(
                        !zb && (if less {
                            nb != vb
                        } else {
                            nb == vb
                        }),
                        label,
                    ),
                    _ => went(ExecuteModel::Next),
                },
                FlagModel::Abstract(c) => went(ExecuteModel::ConditionalJumpLabel(with_op(sym, c), label)),
            },
            _ => refused(unset_flag_message()),
        }
    }

    /// What a control flow instruction does.
    pub open spec fn control_executed(
        &self,
        old: &Self,
        pc: usize,
        op: Seq<char>,
        ops: Seq<OperandModel>,
        r: Result<ExecuteModel, Seq<char>>,
    ) -> bool {
        if op == "adr"@ || op == "adrp"@ {
            r == proceed() && self.written(
                old,
                ops[0],
                RegisterKind::RegisterBase,
                Some(ExprModel::Abstract("memory"@)),
                0,
            )
        } else if op == "cbz"@ || op == "cbnz"@ {
            let reg = old.read(ops[0]);
            let label = label_of(ops[1]);
            let zero = (reg.base is None || reg.base == Some(ExprModel::Empty)) && reg.offset == 0;
            &&& *self == *old
            &&& r == if zero {
                if op == "cbz"@ {
                    went(ExecuteModel::JumpLabel(label))
                } else {
                    went(ExecuteModel::Next)
                }
            } else if reg.kind == RegisterKind::RegisterBase {
                Ok(
                    ExecuteModel::ConditionalJumpLabel(
                        ComparisonModel {
                            op: if op == "cbz"@ {
                                "=="@
                            } else {
                                "!="@
                            },
                            left: ExprModel::Immediate(0),
                            right: register_expr(reg),
                        },
                        label,
                    ),
                )
            } else if op == "cbz"@ {
                went(ExecuteModel::Next)
            } else {
                went(ExecuteModel::JumpLabel(label))
            }
        } else if op == "b"@ {
            *self == *old && r == went(ExecuteModel::JumpLabel(label_of(ops[0])))
        } else if op == "bl"@ {
            &&& r == went(ExecuteModel::JumpLabel(label_of(ops[0])))
            &&& self.written(old, OperandModel::Register(RePrefix::X, 30), RegisterKind::Immediate, None, pc_value(pc))
        } else if op == "b.ne"@ || op == "bne"@ {
            &&& *self == *old
            &&& r == match flag_of(old.zero) {
                Some(FlagModel::Real(b)) => branch_on(!b, label_of(ops[0])),
                Some(FlagModel::Abstract(c)) => Ok(
                    ExecuteModel::ConditionalJumpLabel(with_op(negated_op(c.op)->0, c), label_of(ops[0])),
                ),
                None => refused(unset_flag_message()),
            }
        } else if op == "b.eq"@ || op == "beq"@ {
            &&& *self == *old
            &&& r == match flag_of(old.zero) {
                Some(FlagModel::Real(b)) => branch_on(b, label_of(ops[0])),
                Some(FlagModel::Abstract(c)) => went(ExecuteModel::ConditionalJumpLabel(c, label_of(ops[0]))),
                None => refused(unset_flag_message()),
            }
        } else if op == "bgt"@ || op == "bt"@ || op == "b.gt"@ {
            *self == *old && r == old.signed_branch(label_of(ops[0]), ">"@, false)
        } else if op == "b.lt"@ {
            &&& *self == *old
            &&& r == if ops[0] is Label {
                old.signed_branch(label_of(ops[0]), "<"@, true)
            } else {
                went(ExecuteModel::Next)
            }
        } else if op == "b.ls"@ || op == "b.le"@ {
            &&& *self == *old
            &&& r == match (flag_of(old.zero), flag_of(old.carry)) {
                (Some(z), Some(c)) => match (z, c) {
                    (FlagModel::Real(zb), FlagModel::Real(cb)) => branch_on(!zb && cb, label_of(ops[0])),
                    (FlagModel::Abstract(a), _) => went(ExecuteModel::ConditionalJumpLabel(with_op("<="@, a), label_of(ops[0]))),
                    (_, FlagModel::Abstract(a)) => went(ExecuteModel::ConditionalJumpLabel(with_op("<="@, a), label_of(ops[0]))),
                },
                _ => refused(unset_flag_message()),
            }
        } else if op == "b.cs"@ || op == "b.hs"@ || op == "bcs"@ {
            &&& *self == *old
            &&& r == match flag_of(old.carry) {
                Some(FlagModel::Real(c)) => branch_on(c, label_of(ops[0])),
                Some(FlagModel::Abstract(a)) => went(ExecuteModel::ConditionalJumpLabel(with_op("<"@, a), label_of(ops[0]))),
                None => refused(unset_flag_message()),
            }
        } else if op == "b.cc"@ || op == "b.lo"@ || op == "blo"@ {
            &&& *self == *old
            &&& r == match flag_of(old.carry) {
                Some(FlagModel::Real(c)) => branch_on(!c, label_of(ops[0])),
                Some(FlagModel::Abstract(a)) => went(ExecuteModel::ConditionalJumpLabel(with_op(">="@, a), label_of(ops[0]))),
                None => refused(unset_flag_message()),
            }
        } else if op == "cset"@ {
            let c = match flag_of(old.carry) {
                Some(FlagModel::Real(b)) => b,
                _ => false,
            };
            let v = if label_of(ops[1]) == "cs"@ {
                bit(c)
            } else {
                bit(!c)
            };
            &&& r == proceed()
            &&& self.written(
                old,
                OperandModel::Register(tuple_of(ops[0]).0, tuple_of(ops[0]).1),
                RegisterKind::Immediate,
                None,
                v,
            )
        } else if op == "csel"@ {
            self.csel_executed(old, label_of(ops[3]), ops, r)
        } else {
            match flag_of(old.zero) {
                Some(FlagModel::Real(b)) => r == proceed() && self.written(
                    old,
                    ops[0],
                    RegisterKind::Immediate,
                    None,
                    bit(b),
                ),
                Some(FlagModel::Abstract(a)) => *self == *old && r == went(
                    ExecuteModel::Select(a, ops[0], immediate(1), immediate(1)),
                ),
                None => false,
            }
        }
    }
}

/// The number of leading zero bits of `x`.
fn leading_zeros_of(x: i64) -> (r: i64)
    ensures
        r == leading_zero_count(x),
{
    (x as u64).leading_zeros() as i64
}

impl<'ctx> ARMCORTEXA<'ctx> {
    /// Runs an arithmetic instruction (see `arith_executed`).
    fn execute_arithmetic(&mut self, op: &String, operands: &Vec<Operand>)
        requires
            old(self).wf(),
            old(self).regions_ok(),
            old(self).arith_defined(op@, operands_view(operands@)),
        ensures
            final(self).wf(),
            final(self).regions_ok(),
            final(self).arith_executed(old(self), op@, operands_view(operands@)),
    {
        let ghost ops = operands_view(operands@);
        assert(ops.len() == operands@.len());
        if operands.len() > 0 {
            assert(ops[0] == operands@[0]@);
        }
        if operands.len() > 1 {
            assert(ops[1] == operands@[1]@);
        }
        if operands.len() > 2 {
            assert(ops[2] == operands@[2]@);
        }
        if text_is(op, "add") {
            self.arithmetic("+", add_offsets, copy_operands(operands));
        } else if text_is(op, "sub") {
            self.arithmetic("-", sub_offsets, copy_operands(operands));
        } else if text_is(op, "mul") || text_is(op, "umulh") {
            self.arithmetic("*", mul_offsets, copy_operands(operands));
        } else if text_is(op, "and") {
            self.arithmetic("&", and_offsets, copy_operands(operands));
        } else if text_is(op, "orr") {
            self.arithmetic("|", or_offsets, copy_operands(operands));
        } else if text_is(op, "orn") {
            self.arithmetic("!|", or_not_offsets, copy_operands(operands));
        } else if text_is(op, "eor") {
            self.arithmetic("^", xor_offsets, copy_operands(operands));
        } else if text_is(op, "bic") {
            self.arithmetic("!&", and_not_offsets, copy_operands(operands));
        } else if text_is(op, "adds") {
            self.cmn(&operands[0], &operands[1]);
            self.arithmetic("+", add_offsets, copy_operands(operands));
        } else if text_is(op, "subs") {
            self.cmp(&operands[0], &operands[1]);
            self.arithmetic("-", sub_offsets, copy_operands(operands));
        } else if text_is(op, "ror") || text_is(op, "lsl") || text_is(op, "lsr") {
            self.shift_reg(&operands[0], &operands[1], &operands[2]);
        } else if text_is(op, "ands") {
            self.cmp(&operands[0], &operands[1]);
            self.arithmetic("&", and_offsets, copy_operands(operands));
        } else if text_is(op, "adc") {
            if carry_is_set(&self.carry) {
                self.arithmetic("+", add_offsets_carry, copy_operands(operands));
            } else {
                self.arithmetic("+", add_offsets, copy_operands(operands));
            }
        } else if text_is(op, "adcs") {
            if carry_is_set(&self.carry) {
                self.arithmetic("+", add_offsets_carry, copy_operands(operands));
            } else {
                self.arithmetic("+", add_offsets, copy_operands(operands));
            }
            self.cmn(&operands[1], &operands[2]);
        } else if text_is(op, "sbc") {
            if carry_is_set(&self.carry) {
                self.arithmetic("-", sub_offsets, copy_operands(operands));
            } else {
                self.arithmetic("+", sub_offsets_borrow, copy_operands(operands));
            }
        } else if text_is(op, "sbcs") {
            if carry_is_set(&self.carry) {
                self.arithmetic("-", sub_offsets, copy_operands(operands));
            } else {
                self.arithmetic("-", sub_offsets_borrow, copy_operands(operands));
            }
            self.cmp(&operands[1], &operands[2]);
        } else if text_is(op, "clz") {
            let r1 = self.get_register(&operands[1]);
            if r1.kind == RegisterKind::Immediate {
                self.set_register(&operands[0], RegisterKind::Number, None, leading_zeros_of(r1.offset));
            } else {
                self.set_register(&operands[0], RegisterKind::Number, None, 0);
            }
        } else if text_is(op, "mov") || text_is(op, "movz") || text_is(op, "movk") {
            let mut r1 = self.get_register(&operands[1]);
            if operands.len() > 2 {
                if let Operand::Bitwise(sop, shift) = &operands[2] {
                    r1 = shift_imm(sop.clone(), r1, *shift);
                }
            }
            self.set_register(&operands[0], r1.kind, r1.base, r1.offset);
        } else {
            let r1 = self.get_register(&operands[1]);
            let base = match r1.base {
                Some(b) => Some(generate_expression("rev", b, AbstractExpression::Empty)),
                None => None,
            };
            self.set_register(&operands[0], r1.kind, base, swap_bytes(r1.offset));
        }
    }
}


/// The program counter as a known number.
fn pc_as_value(pc: usize) -> (r: i64)
    ensures
        r == pc_value(pc),
{
    pc as i64
}

/// Whether a register value is the number zero with no symbolic part.
fn is_plain_zero(r: &RegisterValue) -> (b: bool)
    ensures
        b == ((r@.base is None || r@.base == Some(ExprModel::Empty)) && r@.offset == 0),
{
    let plain = match &r.base {
        None => true,
        Some(AbstractExpression::Empty) => true,
        _ => false,
    };
    plain && r.offset == 0
}

/// The comparison `c` with its operator replaced by `op`.
fn replaced_op(op: &str, c: &AbstractComparison) -> (r: AbstractComparison)
    ensures
        r@ == with_op(op@, c@),
{
    generate_comparison(op, crate::common::copy_expression(&c.left), crate::common::copy_expression(&c.right))
}

/// The text of a label operand.
fn label_text(o: &Operand) -> (r: String)
    ensures
        r@ == label_of(o@),
{
    match o {
        Operand::Label(l) => l.clone(),
        _ => String::new(),
    }
}

/// The message of a branch on a flag that no instruction has set.
fn unset_flag() -> (r: String)
    ensures
        r@ == unset_flag_message(),
{
    "Flag cannot be branched on since it has not been set within the program yet".to_string()
}

/// Jumps to `label` where `taken`, else goes on.
fn branch(taken: bool, label: String) -> (r: Result<ExecuteReturnType, String>)
    ensures
        result_model(r) == branch_on(taken, label@),
{
    if taken {
        Ok(ExecuteReturnType::JumpLabel(label))
    } else {
        Ok(ExecuteReturnType::Next)
    }
}

impl<'ctx> ARMCORTEXA<'ctx> {
    /// Branches on the flags of a signed comparison (see `signed_branch`).
    fn signed_branch_exec(&self, label: String, sym: &str, less: bool) -> (r: Result<ExecuteReturnType, String>)
        requires
            self.signed_flags_usable(),
        ensures
            result_model(r) == self.signed_branch(label@, sym@, less),
    {
        match (&self.zero, &self.neg, &self.overflow) {
            (Some(z), Some(n), Some(v)) => match z {
                FlagValue::Real(zb) => match (n, v) {
                    (FlagValue::Real(nb), FlagValue::Real(vb)) => {
                        let cond = if less {
                            *nb != *vb
                        } else {
                            *nb == *vb
                        };
                        branch(!*zb && cond, label)
                    },
                    _ => Ok(ExecuteReturnType::Next),
                },
                FlagValue::Abstract(c) => Ok(ExecuteReturnType::ConditionalJumpLabel(replaced_op(sym, c), label)),
            },
            _ => Err(unset_flag()),
        }
    }

    /// Runs a conditional select (see `csel_executed`).
    fn execute_csel(&mut self, operands: &Vec<Operand>) -> (r: Result<ExecuteReturnType, String>)
        requires
            old(self).wf(),
            operands@.len() >= 4,
            readable(operands@[1]@) && readable(operands@[2]@),
            operands@[3] is Label,
            old(self).csel_defined(label_of(operands@[3]@), operands@[0]@),
        ensures
            final(self).wf(),
            final(self).csel_executed(old(self), label_of(operands@[3]@), operands_view(operands@), result_model(r)),
    {
        let ghost ops = operands_view(operands@);
        assert(ops[0] == operands@[0]@ && ops[1] == operands@[1]@ && ops[2] == operands@[2]@ && ops[3] == operands@[3]@);
        let dest = &operands[0];
        let opt1 = self.get_register(&operands[1]);
        let opt2 = self.get_register(&operands[2]);
        let cond = label_text(&operands[3]);
        if text_is(&cond, "cc") || text_is(&cond, "lo") {
            match &self.carry {
                Some(FlagValue::Real(b)) => {
                    if *b {
                        self.set_register(dest, opt1.kind, opt1.base, opt1.offset);
                    } else {
                        self.set_register(dest, opt2.kind, opt2.base, opt2.offset);
                    }
                    Ok(ExecuteReturnType::Next)
                },
                Some(FlagValue::Abstract(a)) => Ok(
                    ExecuteReturnType::Select(copy_comparison(a), copy_operand(dest), opt1, opt2),
                ),
                None => Ok(ExecuteReturnType::Next),
            }
        } else if text_is(&cond, "cs") {
            match &self.carry {
                Some(FlagValue::Real(b)) => {
                    if !*b {
                        self.set_register(dest, opt1.kind, opt1.base, opt1.offset);
                    } else {
                        self.set_register(dest, opt2.kind, opt2.base, opt2.offset);
                    }
                    Ok(ExecuteReturnType::Next)
                },
                Some(FlagValue::Abstract(a)) => Ok(ExecuteReturnType::Select(a.not(), copy_operand(dest), opt1, opt2)),
                None => {
                    proof {
                        reveal_strlit("==");
                        reveal_strlit("c_flag");
                    }
                    Ok(
                        ExecuteReturnType::Select(
                            AbstractComparison::new(
                                "==",
                                AbstractExpression::Abstract("c_flag".to_string()),
                                AbstractExpression::Immediate(1),
                            ),
                            copy_operand(dest),
                            opt1,
                            opt2,
                        ),
                    )
                },
            }
        } else {
            match &self.zero {
                Some(FlagValue::Real(z)) => {
                    if *z {
                        self.set_register(dest, opt1.kind, opt1.base, opt1.offset);
                    } else {
                        self.set_register(dest, opt2.kind, opt2.base, opt2.offset);
                    }
                    Ok(ExecuteReturnType::Next)
                },
                Some(FlagValue::Abstract(a)) => Ok(
                    ExecuteReturnType::Select(copy_comparison(a), copy_operand(dest), opt1, opt2),
                ),
                None => Ok(ExecuteReturnType::Next),
            }
        }
    }

    /// Runs a control flow instruction (see `control_executed`).
    fn execute_control(&mut self, pc: usize, op: &String, operands: &Vec<Operand>) -> (r: Result<ExecuteReturnType, String>)
        requires
            old(self).wf(),
            old(self).regions_ok(),
            old(self).control_defined(op@, operands_view(operands@)),
        ensures
            final(self).wf(),
            final(self).regions_ok(),
            final(self).control_executed(old(self), pc, op@, operands_view(operands@), result_model(r)),
    {
        let ghost ops = operands_view(operands@);
        assert(ops.len() == operands@.len());
        if operands.len() > 0 {
            assert(ops[0] == operands@[0]@);
        }
        if operands.len() > 1 {
            assert(ops[1] == operands@[1]@);
        }
        if operands.len() > 3 {
            assert(ops[3] == operands@[3]@);
        }
        if text_is(op, "adr") || text_is(op, "adrp") {
            let (region, index) = self.label_to_memory_index(label_text(&operands[1]));
            self.set_register(&operands[0], RegisterKind::RegisterBase, Some(AbstractExpression::Abstract(region)), index);
            Ok(ExecuteReturnType::Next)
        } else if text_is(op, "cbz") || text_is(op, "cbnz") {
            let register = self.get_register(&operands[0]);
            let label = label_text(&operands[1]);
            let cbz = text_is(op, "cbz");
            if is_plain_zero(&register) {
                if cbz {
                    Ok(ExecuteReturnType::JumpLabel(label))
                } else {
                    Ok(ExecuteReturnType::Next)
                }
            } else if register.kind == RegisterKind::RegisterBase {
                let ghost reg = register@;
                let right = AbstractExpression::Register(Box::new(register));
                assert(right@ == register_expr(reg));
                let sym = if cbz {
                    "=="
                } else {
                    "!="
                };
                Ok(ExecuteReturnType::ConditionalJumpLabel(AbstractComparison::new(sym, AbstractExpression::Immediate(0), right), label))
            } else if cbz {
                Ok(ExecuteReturnType::Next)
            } else {
                Ok(ExecuteReturnType::JumpLabel(label))
            }
        } else if text_is(op, "b") {
            Ok(ExecuteReturnType::JumpLabel(label_text(&operands[0])))
        } else if text_is(op, "bl") {
            self.set_register(&Operand::Register(RePrefix::X, 30), RegisterKind::Immediate, None, pc_as_value(pc));
            Ok(ExecuteReturnType::JumpLabel(label_text(&operands[0])))
        } else if text_is(op, "b.ne") || text_is(op, "bne") {
            let label = label_text(&operands[0]);
            match &self.zero {
                Some(FlagValue::Real(b)) => branch(!*b, label),
                Some(FlagValue::Abstract(c)) => Ok(ExecuteReturnType::ConditionalJumpLabel(c.not(), label)),
                None => Err(unset_flag()),
            }
        } else if text_is(op, "b.eq") || text_is(op, "beq") {
            let label = label_text(&operands[0]);
            match &self.zero {
                Some(FlagValue::Real(b)) => branch(*b, label),
                Some(FlagValue::Abstract(c)) => Ok(ExecuteReturnType::ConditionalJumpLabel(copy_comparison(c), label)),
                None => Err(unset_flag()),
            }
        } else if text_is(op, "bgt") || text_is(op, "bt") || text_is(op, "b.gt") {
            self.signed_branch_exec(label_text(&operands[0]), ">", false)
        } else if text_is(op, "b.lt") {
            if let Operand::Label(label) = &operands[0] {
                self.signed_branch_exec(label.clone(), "<", true)
            } else {
                Ok(ExecuteReturnType::Next)
            }
        } else if text_is(op, "b.ls") || text_is(op, "b.le") {
            let label = label_text(&operands[0]);
            match (&self.zero, &self.carry) {
                (Some(z), Some(c)) => match (z, c) {
                    (FlagValue::Real(zb), FlagValue::Real(cb)) => branch(!*zb && *cb, label),
                    (FlagValue::Abstract(a), _) => Ok(ExecuteReturnType::ConditionalJumpLabel(replaced_op("<=", a), label)),
                    (_, FlagValue::Abstract(a)) => Ok(ExecuteReturnType::ConditionalJumpLabel(replaced_op("<=", a), label)),
                },
                _ => Err(unset_flag()),
            }
        } else if text_is(op, "b.cs") || text_is(op, "b.hs") || text_is(op, "bcs") {
            let label = label_text(&operands[0]);
            match &self.carry {
                Some(FlagValue::Real(c)) => branch(*c, label),
                Some(FlagValue::Abstract(a)) => Ok(ExecuteReturnType::ConditionalJumpLabel(replaced_op("<", a), label)),
                None => Err(unset_flag()),
            }
        } else if text_is(op, "b.cc") || text_is(op, "b.lo") || text_is(op, "blo") {
            let label = label_text(&operands[0]);
            match &self.carry {
                Some(FlagValue::Real(c)) => branch(!*c, label),
                Some(FlagValue::Abstract(a)) => Ok(ExecuteReturnType::ConditionalJumpLabel(replaced_op(">=", a), label)),
                None => Err(unset_flag()),
            }
        } else if text_is(op, "cset") {
            let register = register_to_tuple(&operands[0]);
            let cond = label_text(&operands[1]);
            let c = match &self.carry {
                Some(FlagValue::Real(b)) => *b,
                _ => false,
            };
            let v: i64 = if text_is(&cond, "cs") {
                if c {
                    1
                } else {
                    0
                }
            } else if !c {
                1
            } else {
                0
            };
            self.set_register_from_tuple(register, RegisterKind::Immediate, None, v);
            Ok(ExecuteReturnType::Next)
        } else if text_is(op, "csel") {
            self.execute_csel(operands)
        } else {
            match &self.zero {
                Some(FlagValue::Real(b)) => {
                    let v: i64 = if *b {
                        1
                    } else {
                        0
                    };
                    self.set_register(&operands[0], RegisterKind::Immediate, None, v);
                    Ok(ExecuteReturnType::Next)
                },
                Some(FlagValue::Abstract(a)) => {
                    let opt1 = RegisterValue { kind: RegisterKind::Immediate, base: None, offset: 1 };
                    let opt2 = RegisterValue { kind: RegisterKind::Immediate, base: None, offset: 1 };
                    Ok(ExecuteReturnType::Select(copy_comparison(a), copy_operand(&operands[0]), opt1, opt2))
                },
                None => Ok(ExecuteReturnType::Next),
            }
        }
    }
}


/// A non-negative offset as an address.
pub open spec fn address_value(o: i64) -> u128 {
    o as u128
}

impl<'ctx> ARMCORTEXA<'ctx> {
    /// Whether a memory instruction can run in this state: loads and
    /// stores of one register or a pair, through a memory operand without
    /// pre- or post-indexing.
    pub open spec fn memory_defined(&self, op: Seq<char>, ops: Seq<OperandModel>) -> bool {
        if op == "ldr"@ || op == "ldrb"@ {
            ops.len() >= 2 && plain_memory(ops[1]) && load_ok(self, ops[0], address_of(self, ops[1]))
        } else if op == "ldp"@ {
            &&& ops.len() >= 3
            &&& plain_memory(ops[2])
            &&& load_ok(self, ops[0], address_of(self, ops[2]))
            &&& load_ok(self, ops[1], next_word(address_of(self, ops[2])))
        } else if op == "str"@ || op == "strb"@ {
            ops.len() >= 2 && plain_memory(ops[1]) && store_ok(self, ops[0], address_of(self, ops[1]))
        } else if op == "stp"@ {
            &&& ops.len() >= 3
            &&& plain_memory(ops[2])
            &&& store_ok(self, ops[0], address_of(self, ops[2]))
            &&& store_ok(self, ops[1], next_word(address_of(self, ops[2])))
        } else {
            false
        }
    }

    /// What a memory instruction does: each load or store is made after
    /// its bounds check, and the first refusal is the result.
    pub open spec fn memory_executed(&self, old: &Self, op: Seq<char>, ops: Seq<OperandModel>, r: Result<ExecuteModel, Seq<char>>) -> bool {
        if op == "ldr"@ || op == "ldrb"@ {
            exists|o: Option<Seq<char>>| #[trigger] self.load_step(old, ops[0], address_of(old, ops[1]), o) && r == checked(o)
        } else if op == "ldp"@ {
            let a = address_of(old, ops[2]);
            exists|mid: Self, o1: Option<Seq<char>>, o2: Option<Seq<char>>|
                #![trigger mid.load_step(old, ops[0], a, o1), self.load_step(&mid, ops[1], next_word(a), o2)]
                mid.load_step(old, ops[0], a, o1) && self.load_step(&mid, ops[1], next_word(a), o2) && r == (if o1 is Some {
                    checked(o1)
                } else {
                    checked(o2)
                })
        } else if op == "str"@ || op == "strb"@ {
            exists|o: Option<Seq<char>>| #[trigger] self.store_step(old, ops[0], address_of(old, ops[1]), o) && r == checked(o)
        } else {
            let a = address_of(old, ops[2]);
            exists|mid: Self, o1: Option<Seq<char>>, o2: Option<Seq<char>>|
                #![trigger mid.store_step(old, ops[0], a, o1), self.store_step(&mid, ops[1], next_word(a), o2)]
                mid.store_step(old, ops[0], a, o1) && self.store_step(&mid, ops[1], next_word(a), o2) && r == (if o1 is Some {
                    checked(o1)
                } else {
                    checked(o2)
                })
        }
    }

    /// Whether one of the other instructions can run in this state: `cmp`
    /// and `cmn` on two readable operands, and `ret` where the link
    /// register holds an address (a non-negative one unless it is a name).
    pub open spec fn other_defined(&self, op: Seq<char>, ops: Seq<OperandModel>) -> bool {
        if op == "cmp"@ || op == "cmn"@ {
            ops.len() >= 2 && readable(ops[0]) && readable(ops[1])
        } else if op == "ret"@ {
            let x30 = self.regs()[30];
            x30.kind == RegisterKind::RegisterBase && (!(x30.base matches Some(ExprModel::Abstract(_))) ==> x30.offset
                >= 0)
        } else {
            false
        }
    }

    /// What one of the other instructions does: `cmp` and `cmn` set the
    /// flags; `ret` returns to the link register's label or address.
    pub open spec fn other_executed(&self, old: &Self, op: Seq<char>, ops: Seq<OperandModel>, r: Result<ExecuteModel, Seq<char>>) -> bool {
        if op == "cmp"@ {
            r == proceed() && self.flags_set(old, compare_flags(old.read(ops[0]), old.read(ops[1])))
        } else if op == "cmn"@ {
            r == proceed() && self.flags_set(old, cmn_flags(old.read(ops[0]), old.read(ops[1])))
        } else {
            let x30 = old.regs()[30];
            &&& *self == *old
            &&& r == match x30.base {
                Some(ExprModel::Abstract(a)) => went(ExecuteModel::JumpLabel(a)),
                _ => went(ExecuteModel::JumpAddress(address_value(x30.offset))),
            }
        }
    }

    /// Whether `i` can run in this state: it is one of the instructions
    /// this machine knows, with operands of the forms it takes, on flags
    /// it can decide on.
    pub open spec fn can_execute(&self, i: InstructionModel) -> bool {
        match i.ty {
            InstructionType::Arithmetic => self.arith_defined(i.opcode, i.operands),
            InstructionType::ControlFlow => self.control_defined(i.opcode, i.operands),
            InstructionType::Memory => self.memory_defined(i.opcode, i.operands),
            InstructionType::Other => self.other_defined(i.opcode, i.operands),
            InstructionType::SIMDArithmetic => self.simd_arith_defined(i.opcode, i.operands),
            InstructionType::SIMDManagement => self.simd_memory_defined(i.opcode, i.operands),
            _ => false,
        }
    }

    /// What running `i` at `pc` does.
    pub open spec fn executed(&self, old: &Self, pc: usize, i: InstructionModel, r: Result<ExecuteModel, Seq<char>>) -> bool {
        match i.ty {
            InstructionType::Arithmetic => r == proceed() && self.arith_executed(old, i.opcode, i.operands),
            InstructionType::ControlFlow => self.control_executed(old, pc, i.opcode, i.operands, r),
            InstructionType::Memory => self.memory_executed(old, i.opcode, i.operands, r),
            InstructionType::Other => self.other_executed(old, i.opcode, i.operands, r),
            InstructionType::SIMDArithmetic => self.simd_arith_executed(old, i.opcode, i.operands, r),
            InstructionType::SIMDManagement => self.simd_memory_executed(old, i.opcode, i.operands, r),
            _ => false,
        }
    }
}

/// The address of the memory operand `o`.
fn operand_address(s: &mut ARMCORTEXA, o: &Operand) -> (r: RegisterValue)
    requires
        old(s).wf(),
        plain_memory(o@),
    ensures
        *final(s) == *old(s),
        r@ == address_of(old(s), o@),
{
    match o {
        Operand::Memory(w, reg_num, offset, _, _) => {
            let mut address = s.get_register(&Operand::Register(*w, *reg_num));
            let off = match offset {
                Some(v) => *v,
                None => 0,
            };
            address.offset = address.offset.wrapping_add(off);
            address
        },
        _ => RegisterValue { kind: RegisterKind::Number, base: None, offset: 0 },
    }
}

/// The address eight bytes after `a`.
fn next_address(a: &RegisterValue) -> (r: RegisterValue)
    ensures
        r@ == next_word(a@),
{
    RegisterValue { kind: a.kind, base: crate::common::copy_option(&a.base), offset: a.offset.wrapping_add(8) }
}

/// An offset as an address.
fn to_address(o: i64) -> (r: u128)
    requires
        o >= 0,
    ensures
        r == address_value(o),
{
    o as u128
}

impl<'ctx> ARMCORTEXA<'ctx> {
    /// Runs a memory instruction (see `memory_executed`).
    fn execute_memory(&mut self, op: &String, operands: &Vec<Operand>) -> (r: Result<ExecuteReturnType, String>)
        requires
            old(self).wf(),
            old(self).regions_ok(),
            old(self).memory_defined(op@, operands_view(operands@)),
        ensures
            final(self).wf(),
            final(self).regions_ok(),
            final(self).memory_executed(old(self), op@, operands_view(operands@), result_model(r)),
    {
        let ghost ops = operands_view(operands@);
        assert(ops.len() == operands@.len());
        assert(ops[0] == operands@[0]@ && ops[1] == operands@[1]@);
        if operands.len() > 2 {
            assert(ops[2] == operands@[2]@);
        }
        if text_is(op, "ldr") || text_is(op, "ldrb") {
            let address = operand_address(self, &operands[1]);
            let res = self.load(copy_operand(&operands[0]), address);
            match res {
                Err(e) => Err(e.to_string()),
                Ok(()) => Ok(ExecuteReturnType::Next),
            }
        } else if text_is(op, "ldp") {
            let address = operand_address(self, &operands[2]);
            let second = next_address(&address);
            let res1 = self.load(copy_operand(&operands[0]), address);
            let ghost mid = *self;
            let res2 = self.load(copy_operand(&operands[1]), second);
            proof {
                assert(mid.load_step(old(self), ops[0], address_of(old(self), ops[2]), outcome(res1)));
            }
            match res1 {
                Err(e) => {
                    return Err(e.to_string());
                },
                Ok(()) => {},
            }
            match res2 {
                Err(e) => Err(e.to_string()),
                Ok(()) => Ok(ExecuteReturnType::Next),
            }
        } else if text_is(op, "str") || text_is(op, "strb") {
            let address = operand_address(self, &operands[1]);
            let res = self.store(copy_operand(&operands[0]), address);
            match res {
                Err(e) => Err(e.to_string()),
                Ok(()) => Ok(ExecuteReturnType::Next),
            }
        } else {
            let address = operand_address(self, &operands[2]);
            let second = next_address(&address);
            let res1 = self.store(copy_operand(&operands[0]), address);
            let ghost mid = *self;
            proof {
                if outcome(res1) is None {
                    assert(mid.region_names() =~= old(self).region_names());
                }
            }
            let res2 = self.store(copy_operand(&operands[1]), second);
            proof {
                assert(mid.store_step(old(self), ops[0], address_of(old(self), ops[2]), outcome(res1)));
            }
            match res1 {
                Err(e) => {
                    return Err(e.to_string());
                },
                Ok(()) => {},
            }
            match res2 {
                Err(e) => Err(e.to_string()),
                Ok(()) => Ok(ExecuteReturnType::Next),
            }
        }
    }

    /// Runs one of the other instructions (see `other_executed`).
    fn execute_other(&mut self, op: &String, operands: &Vec<Operand>) -> (r: Result<ExecuteReturnType, String>)
        requires
            old(self).wf(),
            old(self).other_defined(op@, operands_view(operands@)),
        ensures
            final(self).wf(),
            final(self).other_executed(old(self), op@, operands_view(operands@), result_model(r)),
    {
        let ghost ops = operands_view(operands@);
        if text_is(op, "cmp") {
            assert(ops[0] == operands@[0]@ && ops[1] == operands@[1]@);
            self.cmp(&operands[0], &operands[1]);
            Ok(ExecuteReturnType::Next)
        } else if text_is(op, "cmn") {
            assert(ops[0] == operands@[0]@ && ops[1] == operands@[1]@);
            self.cmn(&operands[0], &operands[1]);
            Ok(ExecuteReturnType::Next)
        } else {
            let x30 = self.get_register(&Operand::Register(RePrefix::X, 30));
            match &x30.base {
                Some(AbstractExpression::Abstract(address)) => Ok(ExecuteReturnType::JumpLabel(address.clone())),
                _ => Ok(ExecuteReturnType::JumpAddress(to_address(x30.offset))),
            }
        }
    }

    /// Runs `instruction`, the one at `pc` (see `executed`): it changes
    /// registers, flags or memory, and says how execution goes on, or
    /// returns the message of a refused memory access or of a branch on a
    /// flag that was never set.
    pub fn execute(&mut self, pc: usize, instruction: &Instruction) -> (r: Result<ExecuteReturnType, String>)
        requires
            old(self).wf(),
            old(self).regions_ok(),
            old(self).can_execute(instruction@),
        ensures
            final(self).wf(),
            final(self).regions_ok(),
            final(self).executed(old(self), pc, instruction@, result_model(r)),
    {
        match instruction.ty {
            InstructionType::Arithmetic => {
                self.execute_arithmetic(&instruction.opcode, &instruction.operands);
                Ok(ExecuteReturnType::Next)
            },
            InstructionType::ControlFlow => self.execute_control(pc, &instruction.opcode, &instruction.operands),
            InstructionType::Memory => self.execute_memory(&instruction.opcode, &instruction.operands),
            InstructionType::Other => self.execute_other(&instruction.opcode, &instruction.operands),
            InstructionType::SIMDArithmetic => self.execute_simd_arithmetic(instruction),
            InstructionType::SIMDManagement => self.execute_simd_memory(instruction),
            _ => Ok(ExecuteReturnType::Next),
        }
    }
}

/// A compare of two known numbers followed by a conditional branch on the
/// zero flag branches as the numbers say: `b.eq` is taken exactly where
/// they are equal, `b.ne` exactly where they differ.
pub proof fn law_compare_then_branch(
    mid: &ARMCORTEXA,
    old: &ARMCORTEXA,
    a: RegisterModel,
    b: RegisterModel,
    label: Seq<char>,
)
    requires
        a.kind == RegisterKind::Immediate,
        b.kind == RegisterKind::Immediate,
        mid.flags_set(old, crate::computer::instruction_aux::compare_flags(a, b)),
    ensures
        flag_of(mid.zero) matches Some(FlagModel::Real(z)) && branch_on(z, label) == branch_on(a.offset == b.offset, label)
            && branch_on(!z, label) == branch_on(a.offset != b.offset, label),
{
}

/// The letters of the branch mnemonics.
proof fn lemma_branch_mnemonics()
    ensures
        "adr"@.len() == 3 && "adr"@[0] == 'a' && "adr"@[1] == 'd' && "adr"@[2] == 'r',
        "adrp"@.len() == 4 && "adrp"@[0] == 'a' && "adrp"@[1] == 'd' && "adrp"@[2] == 'r' && "adrp"@[3] == 'p',
        "cbz"@.len() == 3 && "cbz"@[0] == 'c' && "cbz"@[1] == 'b' && "cbz"@[2] == 'z',
        "cbnz"@.len() == 4 && "cbnz"@[0] == 'c' && "cbnz"@[1] == 'b' && "cbnz"@[2] == 'n' && "cbnz"@[3] == 'z',
        "b"@.len() == 1 && "b"@[0] == 'b',
        "bl"@.len() == 2 && "bl"@[0] == 'b' && "bl"@[1] == 'l',
        "b.ne"@.len() == 4 && "b.ne"@[0] == 'b' && "b.ne"@[1] == '.' && "b.ne"@[2] == 'n' && "b.ne"@[3] == 'e',
        "bne"@.len() == 3 && "bne"@[0] == 'b' && "bne"@[1] == 'n' && "bne"@[2] == 'e',
        "b.eq"@.len() == 4 && "b.eq"@[0] == 'b' && "b.eq"@[1] == '.' && "b.eq"@[2] == 'e' && "b.eq"@[3] == 'q',
        "beq"@.len() == 3 && "beq"@[0] == 'b' && "beq"@[1] == 'e' && "beq"@[2] == 'q',
        "bgt"@.len() == 3 && "bgt"@[0] == 'b' && "bgt"@[1] == 'g' && "bgt"@[2] == 't',
        "bt"@.len() == 2 && "bt"@[0] == 'b' && "bt"@[1] == 't',
        "b.gt"@.len() == 4 && "b.gt"@[0] == 'b' && "b.gt"@[1] == '.' && "b.gt"@[2] == 'g' && "b.gt"@[3] == 't',
        "b.lt"@.len() == 4 && "b.lt"@[0] == 'b' && "b.lt"@[1] == '.' && "b.lt"@[2] == 'l' && "b.lt"@[3] == 't',
        "b.ls"@.len() == 4 && "b.ls"@[0] == 'b' && "b.ls"@[1] == '.' && "b.ls"@[2] == 'l' && "b.ls"@[3] == 's',
        "b.le"@.len() == 4 && "b.le"@[0] == 'b' && "b.le"@[1] == '.' && "b.le"@[2] == 'l' && "b.le"@[3] == 'e',
        "b.cs"@.len() == 4 && "b.cs"@[0] == 'b' && "b.cs"@[1] == '.' && "b.cs"@[2] == 'c' && "b.cs"@[3] == 's',
        "b.hs"@.len() == 4 && "b.hs"@[0] == 'b' && "b.hs"@[1] == '.' && "b.hs"@[2] == 'h' && "b.hs"@[3] == 's',
        "bcs"@.len() == 3 && "bcs"@[0] == 'b' && "bcs"@[1] == 'c' && "bcs"@[2] == 's',
        "b.cc"@.len() == 4 && "b.cc"@[0] == 'b' && "b.cc"@[1] == '.' && "b.cc"@[2] == 'c' && "b.cc"@[3] == 'c',
        "b.lo"@.len() == 4 && "b.lo"@[0] == 'b' && "b.lo"@[1] == '.' && "b.lo"@[2] == 'l' && "b.lo"@[3] == 'o',
        "blo"@.len() == 3 && "blo"@[0] == 'b' && "blo"@[1] == 'l' && "blo"@[2] == 'o',
{
    reveal_strlit("adr");
    reveal_strlit("adrp");
    reveal_strlit("cbz");
    reveal_strlit("cbnz");
    reveal_strlit("b");
    reveal_strlit("bl");
    reveal_strlit("b.ne");
    reveal_strlit("bne");
    reveal_strlit("b.eq");
    reveal_strlit("beq");
    reveal_strlit("bgt");
    reveal_strlit("bt");
    reveal_strlit("b.gt");
    reveal_strlit("b.lt");
    reveal_strlit("b.ls");
    reveal_strlit("b.le");
    reveal_strlit("b.cs");
    reveal_strlit("b.hs");
    reveal_strlit("bcs");
    reveal_strlit("b.cc");
    reveal_strlit("b.lo");
    reveal_strlit("blo");
}

/// `cmp` of two known numbers `a` and `b` followed by a conditional branch
/// to `label` branches as the numbers compare: `b.eq` where `a = b`, `b.ne`
/// where `a != b`, `b.gt` where `a > b` and `b.lt` where `a < b` as signed
/// numbers, `b.hs` where `a >= b` and `b.lo` where `a < b` as unsigned
/// numbers; otherwise the run goes on. (The difference `a - b` must fit 64
/// signed bits.)
pub proof fn law_compare_then_conditional_branch(
    old: &ARMCORTEXA,
    mid: &ARMCORTEXA,
    next: &ARMCORTEXA,
    c: InstructionModel,
    rc: Result<ExecuteModel, Seq<char>>,
    i: InstructionModel,
    r: Result<ExecuteModel, Seq<char>>,
    pc0: usize,
    pc1: usize,
    label: Seq<char>,
)
    requires
        c.ty == InstructionType::Other,
        c.opcode == "cmp"@,
        c.operands.len() >= 2,
        old.read(c.operands[0]).kind == RegisterKind::Immediate,
        old.read(c.operands[1]).kind == RegisterKind::Immediate,
        i64::MIN <= old.read(c.operands[0]).offset - old.read(c.operands[1]).offset <= i64::MAX,
        mid.executed(old, pc0, c, rc),
        i.ty == InstructionType::ControlFlow,
        i.operands.len() >= 1,
        i.operands[0] == OperandModel::Label(label),
        next.executed(mid, pc1, i, r),
    ensures
        ({
            let a = old.read(c.operands[0]).offset;
            let b = old.read(c.operands[1]).offset;
            let jump = Ok::<ExecuteModel, Seq<char>>(ExecuteModel::JumpLabel(label));
            let on = Ok::<ExecuteModel, Seq<char>>(ExecuteModel::Next);
            &&& rc == on
            &&& i.opcode == "b.eq"@ ==> r == (if a == b { jump } else { on })
            &&& i.opcode == "b.ne"@ ==> r == (if a != b { jump } else { on })
            &&& i.opcode == "b.gt"@ ==> r == (if a > b { jump } else { on })
            &&& i.opcode == "b.lt"@ ==> r == (if a < b { jump } else { on })
            &&& (i.opcode == "b.hs"@ || i.opcode == "b.cs"@) ==> r == (if a as u64 >= #[verifier::truncate] (b as u64) { jump } else { on })
            &&& (i.opcode == "b.lo"@ || i.opcode == "b.cc"@) ==> r == (if (a as u64) < (b as u64) { jump } else { on })
        }),
{
    lemma_branch_mnemonics();
    let ra = old.read(c.operands[0]);
    let rb = old.read(c.operands[1]);
    assert(mid.flags_set(old, compare_flags(ra, rb)));
    let a = ra.offset;
    let b = rb.offset;
    assert(!(rb.offset > ra.offset && vstd::wrapping::i64_specs::wrapping_sub(ra.offset, rb.offset) > 0));
    if ra == rb {
        assert(a == b);
    }
    assert(compare_flags(ra, rb) == Some(crate::computer::instruction_aux::known_flags(
        a < b,
        a == b,
        (a as u64) >= #[verifier::truncate] (b as u64),
        false,
    )));
    assert(flag_of(mid.zero) == Some(FlagModel::Real(a == b)));
    assert(flag_of(mid.neg) == Some(FlagModel::Real(a < b)));
    assert(flag_of(mid.overflow) == Some(FlagModel::Real(false)));
    assert(flag_of(mid.carry) == Some(FlagModel::Real((a as u64) >= #[verifier::truncate] (b as u64))));
    assert(label_of(i.operands[0]) == label);
    assert(next.control_executed(mid, pc1, i.opcode, i.operands, r));
}

/// `cbz` on a register that holds a known number jumps exactly where the
/// number is zero, and `cbnz` exactly where it is not; neither changes the
/// machine.
pub proof fn law_compare_and_branch_on_zero(
    old: &ARMCORTEXA,
    next: &ARMCORTEXA,
    i: InstructionModel,
    r: Result<ExecuteModel, Seq<char>>,
    pc: usize,
    label: Seq<char>,
)
    requires
        i.ty == InstructionType::ControlFlow,
        i.operands.len() >= 2,
        i.operands[1] == OperandModel::Label(label),
        old.read(i.operands[0]).kind == RegisterKind::Immediate,
        old.read(i.operands[0]).base is None,
        next.executed(old, pc, i, r),
    ensures
        *next == *old || !(i.opcode == "cbz"@ || i.opcode == "cbnz"@),
        i.opcode == "cbz"@ ==> r == (if old.read(i.operands[0]).offset == 0 {
            Ok::<ExecuteModel, Seq<char>>(ExecuteModel::JumpLabel(label))
        } else {
            Ok(ExecuteModel::Next)
        }),
        i.opcode == "cbnz"@ ==> r == (if old.read(i.operands[0]).offset != 0 {
            Ok::<ExecuteModel, Seq<char>>(ExecuteModel::JumpLabel(label))
        } else {
            Ok(ExecuteModel::Next)
        }),
{
    lemma_branch_mnemonics();
}

/// The letters of the arithmetic mnemonics.
proof fn lemma_arith_mnemonics()
    ensures
        "add"@.len() == 3 && "add"@[0] == 'a' && "add"@[1] == 'd' && "add"@[2] == 'd',
        "sub"@.len() == 3 && "sub"@[0] == 's' && "sub"@[1] == 'u' && "sub"@[2] == 'b',
        "mul"@.len() == 3 && "mul"@[0] == 'm' && "mul"@[1] == 'u' && "mul"@[2] == 'l',
        "umulh"@.len() == 5 && "umulh"@[0] == 'u' && "umulh"@[1] == 'm' && "umulh"@[2] == 'u' && "umulh"@[3] == 'l' && "umulh"@[4] == 'h',
        "and"@.len() == 3 && "and"@[0] == 'a' && "and"@[1] == 'n' && "and"@[2] == 'd',
        "orr"@.len() == 3 && "orr"@[0] == 'o' && "orr"@[1] == 'r' && "orr"@[2] == 'r',
        "orn"@.len() == 3 && "orn"@[0] == 'o' && "orn"@[1] == 'r' && "orn"@[2] == 'n',
        "eor"@.len() == 3 && "eor"@[0] == 'e' && "eor"@[1] == 'o' && "eor"@[2] == 'r',
        "bic"@.len() == 3 && "bic"@[0] == 'b' && "bic"@[1] == 'i' && "bic"@[2] == 'c',
        "adds"@.len() == 4 && "adds"@[0] == 'a' && "adds"@[1] == 'd' && "adds"@[2] == 'd' && "adds"@[3] == 's',
        "subs"@.len() == 4 && "subs"@[0] == 's' && "subs"@[1] == 'u' && "subs"@[2] == 'b' && "subs"@[3] == 's',
        "ror"@.len() == 3 && "ror"@[0] == 'r' && "ror"@[1] == 'o' && "ror"@[2] == 'r',
        "lsl"@.len() == 3 && "lsl"@[0] == 'l' && "lsl"@[1] == 's' && "lsl"@[2] == 'l',
        "lsr"@.len() == 3 && "lsr"@[0] == 'l' && "lsr"@[1] == 's' && "lsr"@[2] == 'r',
        "ands"@.len() == 4 && "ands"@[0] == 'a' && "ands"@[1] == 'n' && "ands"@[2] == 'd' && "ands"@[3] == 's',
        "adc"@.len() == 3 && "adc"@[0] == 'a' && "adc"@[1] == 'd' && "adc"@[2] == 'c',
        "adcs"@.len() == 4 && "adcs"@[0] == 'a' && "adcs"@[1] == 'd' && "adcs"@[2] == 'c' && "adcs"@[3] == 's',
        "sbc"@.len() == 3 && "sbc"@[0] == 's' && "sbc"@[1] == 'b' && "sbc"@[2] == 'c',
        "sbcs"@.len() == 4 && "sbcs"@[0] == 's' && "sbcs"@[1] == 'b' && "sbcs"@[2] == 'c' && "sbcs"@[3] == 's',
        "mov"@.len() == 3 && "mov"@[0] == 'm' && "mov"@[1] == 'o' && "mov"@[2] == 'v',
        "clz"@.len() == 3 && "clz"@[0] == 'c' && "clz"@[1] == 'l' && "clz"@[2] == 'z',
{
    reveal_strlit("add");
    reveal_strlit("sub");
    reveal_strlit("mul");
    reveal_strlit("umulh");
    reveal_strlit("and");
    reveal_strlit("orr");
    reveal_strlit("orn");
    reveal_strlit("eor");
    reveal_strlit("bic");
    reveal_strlit("adds");
    reveal_strlit("subs");
    reveal_strlit("ror");
    reveal_strlit("lsl");
    reveal_strlit("lsr");
    reveal_strlit("ands");
    reveal_strlit("adc");
    reveal_strlit("adcs");
    reveal_strlit("sbc");
    reveal_strlit("sbcs");
    reveal_strlit("mov");
    reveal_strlit("clz");
}

/// `b` jumps to its label and changes nothing; `bl` jumps to its label and
/// leaves the address of the call, the program counter as a known number,
/// in the link register `x30`, all other registers as they were.
pub proof fn law_branch_and_link(
    old: &ARMCORTEXA,
    next: &ARMCORTEXA,
    i: InstructionModel,
    r: Result<ExecuteModel, Seq<char>>,
    pc: usize,
    label: Seq<char>,
)
    requires
        old.wf(),
        i.ty == InstructionType::ControlFlow,
        i.operands.len() >= 1,
        i.operands[0] == OperandModel::Label(label),
        next.executed(old, pc, i, r),
    ensures
        (i.opcode == "b"@ || i.opcode == "bl"@) ==> r == Ok::<ExecuteModel, Seq<char>>(ExecuteModel::JumpLabel(label)),
        i.opcode == "b"@ ==> *next == *old,
        i.opcode == "bl"@ ==> {
            &&& next.regs()[30] == RegisterModel { kind: RegisterKind::Immediate, base: None, offset: pc as i64 }
            &&& forall|k: int| 0 <= k < 33 && k != 30 ==> #[trigger] next.regs()[k] == old.regs()[k]
            &&& next.vregs() == old.vregs()
            &&& next.flags() == old.flags()
        },
{
    lemma_branch_mnemonics();
    if i.opcode == "bl"@ {
        let m = RegisterModel { kind: RegisterKind::Immediate, base: None, offset: pc_value(pc) };
        assert(write_target(OperandModel::Register(RePrefix::X, 30)) == Some(crate::computer::WriteTarget::General(30)));
        assert(next.regs() == old.regs().update(30, m));
        assert forall|k: int| 0 <= k < 33 && k != 30 implies #[trigger] next.regs()[k] == old.regs()[k] by {
            assert(old.regs().update(30, m)[k] == old.regs()[k]);
        }
    }
}

/// `mov` without a shift copies its source into a general register and
/// changes no other register.
pub proof fn law_move_copies(
    new: &ARMCORTEXA,
    old: &ARMCORTEXA,
    pc: usize,
    i: InstructionModel,
    r: Result<ExecuteModel, Seq<char>>,
    d: usize,
)
    requires
        old.wf(),
        new.executed(old, pc, i, r),
        i.ty == InstructionType::Arithmetic,
        i.opcode == "mov"@,
        i.operands.len() == 2,
        i.operands[0] == OperandModel::Register(RePrefix::X, d),
        d < 31,
    ensures
        r == Ok::<ExecuteModel, Seq<char>>(ExecuteModel::Next),
        new.regs()[d as int] == old.read(i.operands[1]),
        forall|k: int| 0 <= k < 33 && k != d ==> #[trigger] new.regs()[k] == old.regs()[k],
        new.vregs() == old.vregs(),
{
    lemma_arith_mnemonics();
    let v = old.read(i.operands[1]);
    assert(write_target(i.operands[0]) == Some(crate::computer::WriteTarget::General(d as int)));
    assert(new.regs() == old.regs().update(d as int, v));
    assert forall|k: int| 0 <= k < 33 && k != d implies #[trigger] new.regs()[k] == old.regs()[k] by {
        assert(old.regs().update(d as int, v)[k] == old.regs()[k]);
    }
}

/// The value an arithmetic instruction writes, as a number modulo 2^64
/// and a known number, where both sources are known numbers and there is
/// no shift: `add`/`adds` the sum, `sub`/`subs` the difference, `adc` the
/// sum plus the carry flag, `sbc` the difference minus one where the carry
/// flag is clear, `mul` the product, and `and`, `orr`, `eor`, `bic`, `orn`
/// the bitwise results.
pub proof fn law_known_arithmetic(
    new: &ARMCORTEXA,
    old: &ARMCORTEXA,
    pc: usize,
    i: InstructionModel,
    r: Result<ExecuteModel, Seq<char>>,
    d: usize,
)
    requires
        old.wf(),
        new.executed(old, pc, i, r),
        i.ty == InstructionType::Arithmetic,
        i.operands.len() == 3,
        i.operands[0] == OperandModel::Register(RePrefix::X, d),
        d < 31,
        old.read(i.operands[1]).kind == RegisterKind::Immediate,
        old.read(i.operands[2]).kind == RegisterKind::Immediate,
    ensures
        ({
            let x = old.read(i.operands[1]).offset as int;
            let y = old.read(i.operands[2]).offset as int;
            let xi = old.read(i.operands[1]).offset;
            let yi = old.read(i.operands[2]).offset;
            let v = new.regs()[d as int];
            let m = 0x1_0000_0000_0000_0000int;
            let cin: int = if old.carry == Some(FlagValue::Real(true)) { 1 } else { 0 };
            let known = v.kind == RegisterKind::Immediate && v.base is None;
            &&& (i.opcode == "add"@ || i.opcode == "adds"@) ==> known && (v.offset - (x + y)) % m == 0
            &&& (i.opcode == "sub"@ || i.opcode == "subs"@) ==> known && (v.offset - (x - y)) % m == 0
            &&& i.opcode == "adc"@ ==> known && (v.offset - (x + y + cin)) % m == 0
            &&& i.opcode == "sbc"@ ==> known && (v.offset - (x - y - (1 - cin))) % m == 0
            &&& i.opcode == "mul"@ ==> known && (v.offset - x * y) % m == 0
            &&& i.opcode == "and"@ ==> known && v.offset == xi & yi
            &&& i.opcode == "orr"@ ==> known && v.offset == xi | yi
            &&& i.opcode == "eor"@ ==> known && v.offset == xi ^ yi
            &&& i.opcode == "bic"@ ==> known && v.offset == xi & !yi
            &&& i.opcode == "orn"@ ==> known && v.offset == xi | !yi
        }),
{
    lemma_arith_mnemonics();
    let ops = i.operands;
    let ra = old.read(ops[1]);
    let rb = old.read(ops[2]);
    assert(second_source(ops, rb) == rb);
    assert(write_target(ops[0]) == Some(crate::computer::WriteTarget::General(d as int)));
    assert(arith_sources(old, ops) == (ra.offset, rb.offset));
    let op = i.opcode;
    let add = |x: i64, y: i64| vstd::wrapping::i64_specs::wrapping_add(x, y);
    let sub = |x: i64, y: i64| vstd::wrapping::i64_specs::wrapping_sub(x, y);
    let adc1 = |x: i64, y: i64| vstd::wrapping::i64_specs::wrapping_add(vstd::wrapping::i64_specs::wrapping_add(x, y), 1);
    let sbc1 = |x: i64, y: i64| vstd::wrapping::i64_specs::wrapping_sub(vstd::wrapping::i64_specs::wrapping_sub(x, y), 1);
    let mul = |x: i64, y: i64| vstd::wrapping::i64_specs::wrapping_mul(x, y);
    let f: spec_fn(i64, i64) -> i64 = if op == "add"@ || op == "adds"@ || (op == "adc"@ && old.carry != Some(
        FlagValue::Real(true),
    )) {
        add
    } else if op == "sub"@ || op == "subs"@ || (op == "sbc"@ && old.carry == Some(FlagValue::Real(true))) {
        sub
    } else if op == "adc"@ {
        adc1
    } else if op == "sbc"@ {
        sbc1
    } else if op == "mul"@ {
        mul
    } else if op == "and"@ {
        |x: i64, y: i64| x & y
    } else if op == "orr"@ {
        |x: i64, y: i64| x | y
    } else if op == "eor"@ {
        |x: i64, y: i64| x ^ y
    } else if op == "bic"@ {
        |x: i64, y: i64| x & !y
    } else {
        |x: i64, y: i64| x | !y
    };
    if op == "add"@ || op == "adds"@ || op == "sub"@ || op == "subs"@ || op == "adc"@ || op == "sbc"@ || op
        == "mul"@ || op == "and"@ || op == "orr"@ || op == "eor"@ || op == "bic"@ || op == "orn"@ {
        let sym = if op == "add"@ || op == "adds"@ || op == "adc"@ {
            "+"@
        } else if op == "sub"@ || op == "subs"@ {
            "-"@
        } else if op == "sbc"@ {
            if old.carry == Some(FlagValue::Real(true)) {
                "-"@
            } else {
                "+"@
            }
        } else if op == "mul"@ {
            "*"@
        } else if op == "and"@ {
            "&"@
        } else if op == "orr"@ {
            "|"@
        } else if op == "eor"@ {
            "^"@
        } else if op == "bic"@ {
            "!&"@
        } else {
            "!|"@
        };
        let flags = if op == "adds"@ {
            cmn_flags(old.read(ops[0]), old.read(ops[1]))
        } else if op == "subs"@ {
            compare_flags(old.read(ops[0]), old.read(ops[1]))
        } else {
            None
        };
        assert(new.arith_step(old, sym, ops, f, flags));
        let val = f(ra.offset, rb.offset);
        let out = RegisterModel { kind: RegisterKind::Immediate, base: None, offset: val };
        assert(arith_out(old, sym, ops, f) == out);
        assert(new.regs() == old.regs().update(d as int, out));
        assert(new.regs()[d as int] == out);
        let m = 0x1_0000_0000_0000_0000int;
        if op == "mul"@ {
            let p = ra.offset as int * rb.offset as int;
            assert((val - p) % m == 0) by (nonlinear_arith)
                requires
                    val == vstd::wrapping::i64_specs::signed_crop(p),
                    m == 0x1_0000_0000_0000_0000int,
            ;
        }
    }
}

/// An `add` into the general register `x<d>` changes that register alone:
/// every other general register, the SIMD registers, the flags, the memory
/// regions and the queue of memory accesses are as they were, and the run
/// goes on to the next instruction.
pub proof fn law_add_changes_only_its_destination(
    new: &ARMCORTEXA,
    old: &ARMCORTEXA,
    pc: usize,
    i: InstructionModel,
    r: Result<ExecuteModel, Seq<char>>,
    d: usize,
)
    requires
        old.wf(),
        new.executed(old, pc, i, r),
        i.ty == InstructionType::Arithmetic,
        i.opcode == "add"@,
        i.operands.len() >= 3,
        i.operands[0] == OperandModel::Register(RePrefix::X, d),
        d < 33,
    ensures
        r == proceed(),
        new.regs().len() == old.regs().len(),
        forall|k: int| 0 <= k < old.regs().len() && k != d ==> new.regs()[k] == old.regs()[k],
        new.vregs() == old.vregs(),
        new.flags() == old.flags(),
        new.memory@ == old.memory@,
        new.rw_queue@ == old.rw_queue@,
{
    let out = arith_out(old, "+"@, i.operands, |x: i64, y: i64| vstd::wrapping::i64_specs::wrapping_add(x, y));
    assert(new.arith_step(old, "+"@, i.operands, |x: i64, y: i64| vstd::wrapping::i64_specs::wrapping_add(x, y), None));
    assert(write_target(i.operands[0]) == Some(crate::computer::WriteTarget::General(d as int)));
    let m = RegisterModel { kind: out.kind, base: out.base, offset: out.offset };
    assert(new.regs() == old.regs().update(d as int, m));
    assert forall|k: int| 0 <= k < old.regs().len() && k != d implies new.regs()[k] == old.regs()[k] by {
        assert(old.regs().update(d as int, m)[k] == old.regs()[k]);
    }
}

} // verus!
