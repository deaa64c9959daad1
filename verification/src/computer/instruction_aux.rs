//! Arithmetic on register values and the comparisons that set the flags.
use vstd::prelude::*;
use crate::common::{
    AbstractComparison, AbstractExpression, ComparisonModel, ExprModel, FlagModel, FlagValue, RegisterKind,
    RegisterModel, RegisterValue, expression_eq, generate_expression, shift_imm, shifted,
};
use crate::computer::{ARMCORTEXA, FlagsModel, readable, write_target};
use crate::instruction_parser::{Operand, OperandModel, operands_view};

verus! {

/// The symbolic base of `a op b`: both bases joined by `op`, or the one
/// that is there.
pub open spec fn combined_base(op: Seq<char>, a: Option<ExprModel>, b: Option<ExprModel>) -> Option<ExprModel> {
    match a {
        Some(x) => match b {
            Some(y) => Some(ExprModel::Expression(op, Box::new(x), Box::new(y))),
            None => Some(x),
        },
        None => b,
    }
}

/// The value of `r1 op r2`, where `v` is `op` applied to the two offsets:
/// two known numbers give a known number, two addresses an address whose
/// base joins both bases, a known number and anything else takes the
/// other's kind and base, and an unknown number makes the result unknown.
pub open spec fn arith_outcome(op: Seq<char>, r1: RegisterModel, r2: RegisterModel, v: i64) -> RegisterModel {
    if r1.kind == r2.kind {
        match r1.kind {
            RegisterKind::RegisterBase => RegisterModel {
                kind: RegisterKind::RegisterBase,
                base: combined_base(op, r1.base, r2.base),
                offset: v,
            },
            RegisterKind::Number => RegisterModel { kind: RegisterKind::Number, base: None, offset: 0 },
            RegisterKind::Immediate => RegisterModel { kind: RegisterKind::Immediate, base: None, offset: v },
        }
    } else if r1.kind == RegisterKind::Immediate {
        RegisterModel { kind: r2.kind, base: r2.base, offset: v }
    } else if r2.kind == RegisterKind::Immediate {
        RegisterModel { kind: r1.kind, base: r1.base, offset: v }
    } else {
        RegisterModel { kind: RegisterKind::Number, base: None, offset: 0 }
    }
}

/// Whether a shift `op` by `shift` applies to `r` (see `shift_imm`).
pub open spec fn shift_ok(op: Seq<char>, r: RegisterModel, shift: i64) -> bool {
    &&& (op == "lsl"@ || op == "lsr"@ || op == "ror"@ || op == ""@)
    &&& op != ""@ ==> 0 <= shift < 64
    &&& op == ""@ ==> i64::MIN <= r.offset + shift <= i64::MAX
}

/// Whether an optional fourth operand of an arithmetic instruction, a
/// shift of the second source, applies to it.
pub open spec fn fourth_ok(ops: Seq<OperandModel>, r2: RegisterModel) -> bool {
    ops.len() > 3 ==> match ops[3] {
        OperandModel::Bitwise(op, n) => shift_ok(op, r2, n),
        _ => true,
    }
}

/// The second source of an arithmetic instruction, shifted where a fourth
/// operand says so.
pub open spec fn second_source(ops: Seq<OperandModel>, r2: RegisterModel) -> RegisterModel {
    if ops.len() > 3 {
        match ops[3] {
            OperandModel::Bitwise(op, n) => shifted(op, r2, n),
            _ => r2,
        }
    } else {
        r2
    }
}

/// Whether an arithmetic instruction with these operands can run: a
/// destination, two sources and an optional shift.
pub open spec fn arith_ok(s: &ARMCORTEXA, ops: Seq<OperandModel>) -> bool {
    &&& ops.len() >= 3
    &&& readable(ops[0]) && readable(ops[1]) && readable(ops[2])
    &&& write_target(ops[0]) is Some
    &&& fourth_ok(ops, s.read(ops[2]))
}

/// The offsets of the two sources of an arithmetic instruction.
pub open spec fn arith_sources(old: &ARMCORTEXA, ops: Seq<OperandModel>) -> (i64, i64) {
    (old.read(ops[1]).offset, second_source(ops, old.read(ops[2])).offset)
}

/// `new` is `old` after an arithmetic instruction with operator `op`,
/// operands `ops` and offset result `v`.
pub open spec fn arith_written(new: &ARMCORTEXA, old: &ARMCORTEXA, op: Seq<char>, ops: Seq<OperandModel>, v: i64) -> bool {
    let out = arith_outcome(op, old.read(ops[1]), second_source(ops, old.read(ops[2])), v);
    new.written(old, ops[0], out.kind, out.base, out.offset)
}

/// A register value as an expression.
pub open spec fn register_expr(r: RegisterModel) -> ExprModel {
    ExprModel::Register(
        r.kind,
        match r.base {
            Some(b) => Some(Box::new(b)),
            None => None,
        },
        r.offset,
    )
}

/// Flags that only say `e op` the bound.
pub open spec fn symbolic_flags(e: ExprModel, zero_op: Seq<char>, limit_op: Seq<char>, limit: i64) -> FlagsModel {
    FlagsModel {
        neg: Some(FlagModel::Abstract(ComparisonModel { op: seq!['<'], left: e, right: ExprModel::Immediate(0) })),
        zero: Some(FlagModel::Abstract(ComparisonModel { op: zero_op, left: e, right: ExprModel::Immediate(0) })),
        carry: Some(FlagModel::Abstract(ComparisonModel { op: limit_op, left: e, right: ExprModel::Immediate(limit) })),
        overflow: Some(FlagModel::Abstract(ComparisonModel { op: limit_op, left: e, right: ExprModel::Immediate(limit) })),
    }
}

/// Flags of known truth.
pub open spec fn known_flags(neg: bool, zero: bool, carry: bool, overflow: bool) -> FlagsModel {
    FlagsModel {
        neg: Some(FlagModel::Real(neg)),
        zero: Some(FlagModel::Real(zero)),
        carry: Some(FlagModel::Real(carry)),
        overflow: Some(FlagModel::Real(overflow)),
    }
}

/// The flags that `cmp r1, r2` sets, or `None` where it sets none: equal
/// values are equal, with carry set (no borrow); two known numbers, or two
/// addresses with one base, compare their offsets (negative where `r1 <
/// r2`, carry where `r1 >= r2` taken unsigned, as Arm has it); where an
/// address meets anything else the flags are comparisons on `r1 - r2`.
pub open spec fn compare_flags(r1: RegisterModel, r2: RegisterModel) -> Option<FlagsModel> {
    let diff = ExprModel::Expression(seq!['-'], Box::new(register_expr(r1)), Box::new(register_expr(r2)));
    let numeric = known_flags(
        r1.offset < r2.offset,
        r1.offset == r2.offset,
        (r1.offset as u64) >= (r2.offset as u64),
        r2.offset > r1.offset && vstd::wrapping::i64_specs::wrapping_sub(r1.offset, r2.offset) > 0,
    );
    if r1 == r2 {
        Some(known_flags(false, true, true, false))
    } else if r1.kind == r2.kind {
        match r1.kind {
            RegisterKind::RegisterBase => if r1.base == r2.base {
                Some(numeric)
            } else {
                Some(symbolic_flags(diff, seq!['=', '='], seq!['<'], i64::MIN))
            },
            RegisterKind::Number => None,
            RegisterKind::Immediate => Some(numeric),
        }
    } else if r1.kind == RegisterKind::RegisterBase || r2.kind == RegisterKind::RegisterBase {
        Some(symbolic_flags(diff, seq!['=', '='], seq!['<'], i64::MIN))
    } else {
        None
    }
}

/// The flags that `cmn r1, r2` sets, or `None` where it sets none: as
/// `compare_flags` on the sum `r1 + r2`; a 64-bit sum never exceeds
/// `i64::MAX`, so carry and overflow come out false for known sums.
pub open spec fn cmn_flags(r1: RegisterModel, r2: RegisterModel) -> Option<FlagsModel> {
    let sum = ExprModel::Expression(seq!['+'], Box::new(register_expr(r1)), Box::new(register_expr(r2)));
    let s = vstd::wrapping::i64_specs::wrapping_add(r1.offset, r2.offset);
    let numeric = known_flags(s < 0, s == 0, false, false);
    if r1 == r2 {
        Some(known_flags(false, true, false, false))
    } else if r1.kind == r2.kind {
        match r1.kind {
            RegisterKind::RegisterBase => if r1.base == r2.base {
                Some(numeric)
            } else {
                Some(symbolic_flags(sum, seq!['=', '='], seq!['>'], i64::MAX))
            },
            RegisterKind::Number => None,
            RegisterKind::Immediate => Some(numeric),
        }
    } else if r1.kind == RegisterKind::RegisterBase || r2.kind == RegisterKind::RegisterBase {
        Some(symbolic_flags(sum, seq!['=', '='], seq!['>'], i64::MAX))
    } else {
        None
    }
}

/// Whether `a` is at least `b`, both taken as unsigned 64-bit numbers.
fn unsigned_at_least(a: i64, b: i64) -> (r: bool)
    ensures
        r == ((a as u64) >= (b as u64)),
{
    (a as u64) >= (b as u64)
}

/// Whether two register values are equal.
pub fn register_eq(a: &RegisterValue, b: &RegisterValue) -> (r: bool)
    ensures
        r == (a@ == b@),
{
    if a.kind != b.kind || a.offset != b.offset {
        return false;
    }
    match (&a.base, &b.base) {
        (Some(x), Some(y)) => expression_eq(x, y),
        (None, None) => true,
        _ => false,
    }
}

/// Whether two optional bases are equal.
fn base_eq(a: &Option<AbstractExpression>, b: &Option<AbstractExpression>) -> (r: bool)
    ensures
        r == (crate::common::opt_model(*a) == crate::common::opt_model(*b)),
{
    match (a, b) {
        (Some(x), Some(y)) => expression_eq(x, y),
        (None, None) => true,
        _ => false,
    }
}

/// A register value as an expression.
fn register_expression(r: RegisterValue) -> (e: AbstractExpression)
    ensures
        e@ == register_expr(r@),
{
    let ghost m = r@;
    let e = AbstractExpression::Register(Box::new(r));
    assert(e@ == register_expr(m));
    e
}

impl<'ctx> ARMCORTEXA<'ctx> {
    /// Whether `self` is `old` with the flags set to `f`.
    pub open spec fn flags_set(&self, old: &Self, f: Option<FlagsModel>) -> bool {
        match f {
            Some(flags) => self.same_but_flags(old) && self.flags() == flags,
            None => *self == *old,
        }
    }

    /// `dst = src1 op src2`, where the first three operands name the
    /// destination and the sources and an optional fourth shifts the
    /// second source; `op` computes the offset.
    pub fn arithmetic(&mut self, op_string: &str, op: impl Fn(i64, i64) -> i64, operands: Vec<Operand>)
        requires
            old(self).wf(),
            arith_ok(old(self), operands_view(operands@)),
            forall|x: i64, y: i64| call_requires(op, (x, y)),
        ensures
            final(self).wf(),
            exists|v: i64|
                call_ensures(op, arith_sources(old(self), operands_view(operands@)), v) && #[trigger] arith_written(
                    final(self),
                    old(self),
                    op_string@,
                    operands_view(operands@),
                    v,
                ),
    {
        let ghost ops = operands_view(operands@);
        assert(ops[0] == operands@[0]@ && ops[1] == operands@[1]@ && ops[2] == operands@[2]@);
        let reg0 = &operands[0];
        let reg1 = &operands[1];
        let reg2 = &operands[2];
        let _r0 = self.get_register(reg0);
        let r1 = self.get_register(reg1);
        let mut r2 = self.get_register(reg2);
        if operands.len() > 3 {
            assert(ops[3] == operands@[3]@);
            if let Operand::Bitwise(sop, num) = &operands[3] {
                r2 = shift_imm(sop.clone(), r2, *num);
            }
        }
        assert(r1@ == old(self).read(ops[1]));
        assert(r2@ == second_source(ops, old(self).read(ops[2])));
        let v = op(r1.offset, r2.offset);
        let ghost out = arith_outcome(op_string@, r1@, r2@, v);
        if r1.kind == r2.kind {
            match r1.kind {
                RegisterKind::RegisterBase => {
                    let base = match r1.base {
                        Some(reg1base) => match r2.base {
                            Some(reg2base) => Some(generate_expression(op_string, reg1base, reg2base)),
                            None => Some(reg1base),
                        },
                        None => r2.base,
                    };
                    self.set_register(reg0, RegisterKind::RegisterBase, base, v);
                },
                RegisterKind::Number => {
                    self.set_register(reg0, RegisterKind::Number, None, 0);
                },
                RegisterKind::Immediate => {
                    self.set_register(reg0, RegisterKind::Immediate, None, v);
                },
            }
        } else if r1.kind == RegisterKind::Immediate {
            self.set_register(reg0, r2.kind, r2.base, v);
        } else if r2.kind == RegisterKind::Immediate {
            self.set_register(reg0, r1.kind, r1.base, v);
        } else {
            self.set_register(reg0, RegisterKind::Number, None, 0);
        }
        assert(arith_written(self, old(self), op_string@, ops, v));
        assert(call_ensures(op, arith_sources(old(self), ops), v));
    }

    /// `dst = src >> amount`, the amount taken from the third operand as
    /// 64-bit shifts do (modulo 64); the base records the shift as `ror`.
    pub fn shift_reg(&mut self, reg1: &Operand, reg2: &Operand, reg3: &Operand)
        requires
            old(self).wf(),
            readable(reg2@),
            readable(reg3@),
            write_target(reg1@) is Some,
        ensures
            final(self).wf(),
            ({
                let r2 = old(self).read(reg2@);
                let amount = old(self).read(reg3@).offset;
                let v = crate::computer::instructions::shift_right(r2.offset, amount);
                final(self).written(
                    old(self),
                    reg1@,
                    r2.kind,
                    Some(
                        ExprModel::Expression(
                            "ror"@,
                            Box::new(
                                match r2.base {
                                    Some(b) => b,
                                    None => ExprModel::Empty,
                                },
                            ),
                            Box::new(ExprModel::Immediate(v)),
                        ),
                    ),
                    v,
                )
            }),
    {
        let r2 = self.get_register(reg2);
        let shift = self.get_register(reg3).offset;
        let new_offset = r2.offset.wrapping_shr(shift as u32);
        let base = match r2.base {
            Some(b) => b,
            None => AbstractExpression::Empty,
        };
        self.set_register(
            reg1,
            r2.kind,
            Some(generate_expression("ror", base, AbstractExpression::Immediate(new_offset))),
            new_offset,
        );
    }

    /// Sets the four flags to known values.
    fn set_known_flags(&mut self, neg: bool, zero: bool, carry: bool, overflow: bool)
        ensures
            final(self).flags_set(old(self), Some(known_flags(neg, zero, carry, overflow))),
    {
        self.neg = Some(FlagValue::Real(neg));
        self.zero = Some(FlagValue::Real(zero));
        self.carry = Some(FlagValue::Real(carry));
        self.overflow = Some(FlagValue::Real(overflow));
    }

    /// Sets the flags to comparisons of `e` with zero and with `limit`.
    fn set_symbolic_flags(&mut self, e: AbstractExpression, limit_op: &str, limit: i64)
        ensures
            final(self).flags_set(old(self), Some(symbolic_flags(e@, "=="@, limit_op@, limit))),
    {
        proof {
            reveal_strlit("<");
        }
        let ghost m = e@;
        let e1 = crate::common::copy_expression(&e);
        let e2 = crate::common::copy_expression(&e);
        let e3 = crate::common::copy_expression(&e);
        self.neg = Some(FlagValue::Abstract(AbstractComparison::new("<", e1, AbstractExpression::Immediate(0))));
        self.zero = Some(FlagValue::Abstract(AbstractComparison::new("==", e2, AbstractExpression::Immediate(0))));
        self.carry = Some(FlagValue::Abstract(AbstractComparison::new(limit_op, e3, AbstractExpression::Immediate(limit))));
        self.overflow = Some(FlagValue::Abstract(AbstractComparison::new(limit_op, e, AbstractExpression::Immediate(limit))));
        assert("<"@ =~= seq!['<']);
    }

    /// Compares two values and sets the flags as `r1 - r2` would (see
    /// `compare_flags`).
    pub fn cmp(&mut self, reg1: &Operand, reg2: &Operand)
        requires
            old(self).wf(),
            readable(reg1@),
            readable(reg2@),
        ensures
            final(self).wf(),
            final(self).flags_set(old(self), compare_flags(old(self).read(reg1@), old(self).read(reg2@))),
    {
        proof {
            reveal_strlit("==");
            reveal_strlit("<");
            reveal_strlit("-");
            assert("=="@ =~= seq!['=', '='] && "<"@ =~= seq!['<'] && "-"@ =~= seq!['-']);
        }
        let r1 = self.get_register(reg1);
        let r2 = self.get_register(reg2);
        if register_eq(&r1, &r2) {
            self.set_known_flags(false, true, true, false);
            return;
        }
        let numeric = r1.kind == RegisterKind::Immediate
            || (r1.kind == RegisterKind::RegisterBase && base_eq(&r1.base, &r2.base));
        if r1.kind == r2.kind && numeric {
            let below = r2.offset > r1.offset && r1.offset.wrapping_sub(r2.offset) > 0;
            let no_borrow = unsigned_at_least(r1.offset, r2.offset);
            self.set_known_flags(r1.offset < r2.offset, r1.offset == r2.offset, no_borrow, below);
        } else if (r1.kind == r2.kind && r1.kind == RegisterKind::RegisterBase) || (r1.kind != r2.kind && (
        r1.kind == RegisterKind::RegisterBase || r2.kind == RegisterKind::RegisterBase)) {
            let expression = generate_expression("-", register_expression(r1), register_expression(r2));
            self.set_symbolic_flags(expression, "<", i64::MIN);
        }
    }

    /// Compares `r1` with the negation of `r2` and sets the flags as
    /// `r1 + r2` would (see `cmn_flags`).
    pub fn cmn(&mut self, reg1: &Operand, reg2: &Operand)
        requires
            old(self).wf(),
            readable(reg1@),
            readable(reg2@),
        ensures
            final(self).wf(),
            final(self).flags_set(old(self), cmn_flags(old(self).read(reg1@), old(self).read(reg2@))),
    {
        proof {
            reveal_strlit("==");
            reveal_strlit(">");
            reveal_strlit("+");
            assert("=="@ =~= seq!['=', '='] && ">"@ =~= seq!['>'] && "+"@ =~= seq!['+']);
        }
        let r1 = self.get_register(reg1);
        let r2 = self.get_register(reg2);
        if register_eq(&r1, &r2) {
            self.set_known_flags(false, true, false, false);
            return;
        }
        let numeric = r1.kind == RegisterKind::Immediate
            || (r1.kind == RegisterKind::RegisterBase && base_eq(&r1.base, &r2.base));
        if r1.kind == r2.kind && numeric {
            let s = r1.offset.wrapping_add(r2.offset);
            self.set_known_flags(s < 0, s == 0, false, false);
        } else if (r1.kind == r2.kind && r1.kind == RegisterKind::RegisterBase) || (r1.kind != r2.kind && (
        r1.kind == RegisterKind::RegisterBase || r2.kind == RegisterKind::RegisterBase)) {
            let expression = generate_expression("+", register_expression(r1), register_expression(r2));
            self.set_symbolic_flags(expression, ">", i64::MAX);
        }
    }
}

} // verus!
