//! A symbolic model of an AArch64 (Arm Cortex-A) core: general purpose and
//! SIMD registers that hold known numbers, unknown numbers or symbolic
//! addresses, the four condition flags, and named memory regions whose
//! accesses are checked against their bounds with the Z3 solver.
use vstd::prelude::*;
use z3::{Context, Solver};
use crate::common::{
    AbstractExpression, ExprModel, FlagModel, FlagValue, MemoryAccess, MemorySafeRegion, RegionType,
    RegisterKind, RegisterModel, RegisterValue, SimdModel, SimdRegister, be_acc64, copy_flag, copy_option,
    copy_register, decimal, expression_eq, flag_model, lane_name, lane_tree, opt_model,
};
use crate::instruction_parser::{Arrangement, Operand, OperandModel, RePrefix, operand_from_string, operand_spec};
use crate::smt::{int_const, int_ge, int_value, new_solver, solver_assert, solver_facts, solver_in, BoolModel};

pub mod instruction_aux;
pub mod instructions;
pub mod memory;
pub mod simd;

verus! {

/// The machine state.
pub struct ARMCORTEXA<'ctx> {
    /// `x0` to `x28`, the frame pointer `x29`, the link register `x30`, the
    /// stack pointer and the zero register.
    pub registers: Vec<RegisterValue>,
    pub simd_registers: Vec<SimdRegister>,
    pub zero: Option<FlagValue>,
    pub neg: Option<FlagValue>,
    pub carry: Option<FlagValue>,
    pub overflow: Option<FlagValue>,
    /// The memory regions by name.
    pub memory: Vec<(String, MemorySafeRegion)>,
    /// Addresses of labels within the region named `memory`.
    pub memory_labels: Vec<(String, i64)>,
    /// The accesses made since the queue was last cleared.
    pub rw_queue: Vec<MemoryAccess>,
    pub alignment: i64,
    pub context: &'ctx Context,
    pub solver: Solver<'ctx>,
}

/// The four condition flags.
pub struct FlagsModel {
    pub zero: Option<FlagModel>,
    pub neg: Option<FlagModel>,
    pub carry: Option<FlagModel>,
    pub overflow: Option<FlagModel>,
}

/// Where a write to a register operand lands.
pub enum WriteTarget {
    /// The general purpose register with this number.
    General(int),
    /// The general purpose register with this number, through its 32-bit
    /// name: the offset is cut to 32 bits and sign-extended.
    Word(int),
    /// The SIMD register with this number, in this arrangement.
    Vector(int, Arrangement),
    /// Nowhere: the 32-bit names of the stack pointer and zero register.
    Ignored,
}

/// Where a write to `op` lands; `None` where the operand names no register
/// this machine can write.
pub open spec fn write_target(op: OperandModel) -> Option<WriteTarget> {
    match op {
        OperandModel::Register(p, n) => match p {
            RePrefix::X => if n < 33 { Some(WriteTarget::General(n as int)) } else { None },
            RePrefix::W => if n < 31 { Some(WriteTarget::Word(n as int)) } else { Some(WriteTarget::Ignored) },
            RePrefix::Fp => Some(WriteTarget::General(29)),
            RePrefix::Ra => Some(WriteTarget::General(30)),
            RePrefix::Sp => Some(WriteTarget::General(31)),
            RePrefix::Ze => Some(WriteTarget::General(32)),
            RePrefix::V => None,
        },
        OperandModel::VectorRegister(_, n) => if n < 32 {
            Some(WriteTarget::Vector(n as int, Arrangement::B16))
        } else {
            None
        },
        OperandModel::Vector(_, n, a) => if n < 32 { Some(WriteTarget::Vector(n as int, a)) } else { None },
        _ => None,
    }
}

/// Whether `op` can be read as a register value.
pub open spec fn readable(op: OperandModel) -> bool {
    match op {
        OperandModel::Register(p, n) => match p {
            RePrefix::X | RePrefix::W => n < 33,
            RePrefix::V => false,
            _ => true,
        },
        OperandModel::Immediate(_) => true,
        OperandModel::VectorRegister(_, n) => n < 32,
        OperandModel::Vector(_, n, _) => n < 32,
        OperandModel::VectorAccess(_, n, _, _) => n < 32,
        _ => false,
    }
}

/// A SIMD register read as one value.
pub open spec fn simd_as_register(m: SimdModel) -> RegisterModel {
    RegisterModel { kind: m.kind, base: lane_tree(m.base, 0, 16), offset: be_acc64(m.offset, 8) as i64 }
}

/// The value that reading `op` gives.
pub open spec fn read_operand(regs: Seq<RegisterModel>, vregs: Seq<SimdModel>, op: OperandModel) -> RegisterModel {
    match op {
        OperandModel::Register(p, n) => match p {
            RePrefix::Fp => regs[29],
            RePrefix::Ra => regs[30],
            RePrefix::Sp => regs[31],
            RePrefix::Ze => regs[32],
            _ => regs[n as int],
        },
        OperandModel::Immediate(v) => RegisterModel { kind: RegisterKind::Immediate, base: None, offset: v },
        OperandModel::VectorRegister(_, n) => simd_as_register(vregs[n as int]),
        OperandModel::Vector(_, n, _) => simd_as_register(vregs[n as int]),
        OperandModel::VectorAccess(_, n, _, _) => simd_as_register(vregs[n as int]),
        _ => RegisterModel { kind: RegisterKind::Number, base: None, offset: 0 },
    }
}

/// The number of the SIMD register that `op` names.
pub open spec fn simd_index(op: OperandModel) -> int {
    match op {
        OperandModel::VectorRegister(_, n) => n as int,
        OperandModel::Vector(_, n, _) => n as int,
        OperandModel::VectorAccess(_, n, _, _) => n as int,
        _ => 0,
    }
}

/// The position of `name` in `names`, if it is there.
pub open spec fn name_index(names: Seq<Seq<char>>, name: Seq<char>) -> Option<int> {
    if exists|i: int| 0 <= i < names.len() && #[trigger] names[i] == name {
        Some(choose|i: int| 0 <= i < names.len() && #[trigger] names[i] == name)
    } else {
        None
    }
}

/// Whether `op` names a SIMD register as a whole.
pub open spec fn simd_operand(op: OperandModel) -> bool {
    match op {
        OperandModel::VectorRegister(_, n) => n < 32,
        OperandModel::Vector(_, n, _) => n < 32,
        _ => false,
    }
}

/// The name of an arrangement, such as `16b`.
pub open spec fn arrangement_name(a: Arrangement) -> Seq<char> {
    match a {
        Arrangement::B8 => seq!['8', 'b'],
        Arrangement::B16 => seq!['1', '6', 'b'],
        Arrangement::H4 => seq!['4', 'h'],
        Arrangement::H8 => seq!['8', 'h'],
        Arrangement::S2 => seq!['2', 's'],
        Arrangement::S4 => seq!['4', 's'],
        Arrangement::D2 => seq!['2', 'd'],
        Arrangement::D => seq!['d'],
        Arrangement::S => seq!['s'],
        Arrangement::H => seq!['h'],
        Arrangement::B => seq!['b'],
    }
}

/// A SIMD register after it was set from one value (see
/// `SimdRegister::set_register`).
pub open spec fn simd_after_set(
    old: SimdModel,
    name: Seq<char>,
    kind: RegisterKind,
    base: Option<ExprModel>,
    offset: u128,
) -> SimdModel {
    SimdModel {
        kind,
        base: match base {
            None => Seq::new(16, |i: int| None::<ExprModel>),
            Some(b) => Seq::new(
                16,
                |i: int|
                    if i < 15 {
                        Some(
                            ExprModel::Expression(
                                seq!['&'],
                                Box::new(ExprModel::Abstract(name + decimal(i as nat))),
                                Box::new(b),
                            ),
                        )
                    } else {
                        old.base[15]
                    },
            ),
        },
        offset: crate::ghash::be_bytes128(offset),
    }
}

/// The text of an arrangement's name.
fn arrangement_text(a: Arrangement) -> (r: String)
    ensures
        r@ == arrangement_name(a),
{
    proof {
        reveal_strlit("8b");
        reveal_strlit("16b");
        reveal_strlit("4h");
        reveal_strlit("8h");
        reveal_strlit("2s");
        reveal_strlit("4s");
        reveal_strlit("2d");
        reveal_strlit("d");
        reveal_strlit("s");
        reveal_strlit("h");
        reveal_strlit("b");
    }
    let t = match a {
        Arrangement::B8 => "8b",
        Arrangement::B16 => "16b",
        Arrangement::H4 => "4h",
        Arrangement::H8 => "8h",
        Arrangement::S2 => "2s",
        Arrangement::S4 => "4s",
        Arrangement::D2 => "2d",
        Arrangement::D => "d",
        Arrangement::S => "s",
        Arrangement::H => "h",
        Arrangement::B => "b",
    };
    assert(t@ =~= arrangement_name(a));
    t.to_string()
}

/// A fresh copy of a SIMD register.
pub fn copy_simd(s: &SimdRegister) -> (r: SimdRegister)
    ensures
        r@ == s@,
{
    let mut base: [Option<AbstractExpression>; 16] = [
        None, None, None, None, None, None, None, None, None, None, None, None, None, None, None, None,
    ];
    for i in 0..16
        invariant
            forall|j: int| 0 <= j < i ==> opt_model(#[trigger] base@[j]) == opt_model(s.base@[j]),
    {
        base[i] = copy_option(&s.base[i]);
    }
    let r = SimdRegister { kind: s.kind, base, offset: s.offset };
    assert(r@.base =~= s@.base);
    r
}

/// What the solver of a machine holds: the bound of the stack, that the
/// constant `MAX` is at least `i64::MAX`.
pub open spec fn stack_facts() -> Seq<BoolModel> {
    seq![BoolModel::Cmp(seq!['>', '='], ExprModel::Abstract("MAX"@), ExprModel::Immediate(i64::MAX))]
}

impl<'ctx> ARMCORTEXA<'ctx> {
    /// The register file has its size, and region and label names occur
    /// once each.
    pub open spec fn wf(&self) -> bool {
        &&& self.registers@.len() == 33
        &&& self.simd_registers@.len() == 32
        &&& forall|i: int, j: int|
            0 <= i < j < self.memory@.len() ==> (#[trigger] self.memory@[i]).0@ != (#[trigger] self.memory@[j]).0@
        &&& forall|i: int, j: int|
            0 <= i < j < self.memory_labels@.len() ==> (#[trigger] self.memory_labels@[i]).0@
                != (#[trigger] self.memory_labels@[j]).0@
        &&& solver_in(&self.solver, self.context)
        &&& solver_facts(&self.solver) == stack_facts()
    }

    /// The general purpose registers.
    pub open spec fn regs(&self) -> Seq<RegisterModel> {
        self.registers@.map_values(|r: RegisterValue| r@)
    }

    /// The SIMD registers.
    pub open spec fn vregs(&self) -> Seq<SimdModel> {
        self.simd_registers@.map_values(|r: SimdRegister| r@)
    }

    /// The condition flags.
    pub open spec fn flags(&self) -> FlagsModel {
        FlagsModel {
            zero: flag_model(self.zero),
            neg: flag_model(self.neg),
            carry: flag_model(self.carry),
            overflow: flag_model(self.overflow),
        }
    }

    /// The value that reading `op` gives in this state.
    pub open spec fn read(&self, op: OperandModel) -> RegisterModel {
        read_operand(self.regs(), self.vregs(), op)
    }

    /// Everything but the registers and the access queue is as in `old`.
    pub open spec fn same_but_registers_and_queue(&self, old: &Self) -> bool {
        &&& self.zero == old.zero
        &&& self.neg == old.neg
        &&& self.carry == old.carry
        &&& self.overflow == old.overflow
        &&& self.memory@ == old.memory@
        &&& self.memory_labels@ == old.memory_labels@
        &&& self.alignment == old.alignment
        &&& self.context == old.context
        &&& self.solver == old.solver
    }

    /// Everything but the registers is as in `old`.
    pub open spec fn same_but_registers(&self, old: &Self) -> bool {
        &&& self.same_but_registers_and_queue(old)
        &&& self.rw_queue@ == old.rw_queue@
    }

    /// Everything but the flags is as in `old`.
    pub open spec fn same_but_flags(&self, old: &Self) -> bool {
        &&& self.regs() == old.regs()
        &&& self.vregs() == old.vregs()
        &&& self.registers@.len() == old.registers@.len()
        &&& self.simd_registers@.len() == old.simd_registers@.len()
        &&& self.memory@ == old.memory@
        &&& self.memory_labels@ == old.memory_labels@
        &&& self.rw_queue@ == old.rw_queue@
        &&& self.alignment == old.alignment
        &&& self.context == old.context
        &&& self.solver == old.solver
    }

    /// `self` is `old` after `kind`, `base` and `offset` were written to
    /// the register that `op` names.
    pub open spec fn written(&self, old: &Self, op: OperandModel, kind: RegisterKind, base: Option<ExprModel>, offset: i64) -> bool {
        &&& self.same_but_registers(old)
        &&& self.register_effect(old, op, kind, base, offset)
    }

    /// The registers of `self` are those of `old` after `kind`, `base` and
    /// `offset` were written to the register that `op` names.
    pub open spec fn register_effect(&self, old: &Self, op: OperandModel, kind: RegisterKind, base: Option<ExprModel>, offset: i64) -> bool {
        &&& self.registers@.len() == old.registers@.len()
        &&& self.simd_registers@.len() == old.simd_registers@.len()
        &&& match write_target(op) {
            Some(WriteTarget::General(i)) => self.regs() == old.regs().update(
                i,
                RegisterModel { kind, base, offset },
            ) && self.vregs() == old.vregs(),
            Some(WriteTarget::Word(i)) => self.regs() == old.regs().update(
                i,
                RegisterModel { kind, base, offset: (offset as i32) as i64 },
            ) && self.vregs() == old.vregs(),
            Some(WriteTarget::Vector(i, a)) => self.regs() == old.regs() && self.vregs() == old.vregs().update(
                i,
                simd_after_set(old.vregs()[i], arrangement_name(a), kind, base, offset as u128),
            ),
            Some(WriteTarget::Ignored) => self.regs() == old.regs() && self.vregs() == old.vregs(),
            None => false,
        }
    }

    /// A machine whose registers hold their own names (`x0` to `x29`,
    /// `sp`), whose link register holds `return` and whose SIMD registers
    /// hold unknown numbers; the flags are not set, the only region is the
    /// stack `sp`, readable and writable, of the symbolic length `MAX`,
    /// which the solver is told is at least `i64::MAX`, and the alignment
    /// is four bytes.
    pub fn new(context: &'ctx Context) -> (r: ARMCORTEXA<'ctx>)
        ensures
            r.wf(),
            forall|i: int|
                0 <= i < 30 ==> #[trigger] r.regs()[i] == (RegisterModel {
                    kind: RegisterKind::RegisterBase,
                    base: Some(ExprModel::Abstract(seq!['x'] + decimal(i as nat))),
                    offset: 0,
                }),
            r.regs()[30] == (RegisterModel {
                kind: RegisterKind::RegisterBase,
                base: Some(ExprModel::Abstract("return"@)),
                offset: 0,
            }),
            r.regs()[31] == (RegisterModel {
                kind: RegisterKind::RegisterBase,
                base: Some(ExprModel::Abstract("sp"@)),
                offset: 0,
            }),
            r.regs()[32] == (RegisterModel { kind: RegisterKind::Immediate, base: None, offset: 0 }),
            forall|i: int|
                0 <= i < 32 ==> (#[trigger] r.vregs()[i]).kind == RegisterKind::Number && r.vregs()[i].base
                    == Seq::new(16, |j: int| None::<ExprModel>) && r.vregs()[i].offset == Seq::new(
                    16,
                    |j: int| 0u8,
                ),
            r.zero is None && r.neg is None && r.carry is None && r.overflow is None,
            r.memory@.len() == 1,
            r.memory@[0].0@ == "sp"@,
            r.memory@[0].1.kind_spec() == RegionType::RW,
            r.memory@[0].1.length_spec() == ExprModel::Abstract("MAX"@),
            r.memory@[0].1.content_spec().is_empty(),
            r.memory_labels@.len() == 0,
            r.rw_queue@.len() == 0,
            r.alignment == 4,
            r.context == context,
    {
        let mut registers: Vec<RegisterValue> = Vec::new();
        let x = "x".to_string();
        proof {
            reveal_strlit("x");
        }
        for i in 0..30
            invariant
                x@ == seq!['x'],
                registers@.len() == i,
                forall|j: int|
                    0 <= j < i ==> (#[trigger] registers@[j])@ == (RegisterModel {
                        kind: RegisterKind::RegisterBase,
                        base: Some(ExprModel::Abstract(seq!['x'] + decimal(j as nat))),
                        offset: 0,
                    }),
        {
            let name = lane_name(&x, i);
            registers.push(RegisterValue::new(RegisterKind::RegisterBase, Some(AbstractExpression::Abstract(name)), 0));
        }
        registers.push(
            RegisterValue::new(RegisterKind::RegisterBase, Some(AbstractExpression::Abstract("return".to_string())), 0),
        );
        registers.push(RegisterValue::new_empty("sp"));
        registers.push(RegisterValue::new(RegisterKind::Immediate, None, 0));
        let mut simd_registers: Vec<SimdRegister> = Vec::new();
        for i in 0..32
            invariant
                simd_registers@.len() == i,
                forall|j: int|
                    0 <= j < i ==> (#[trigger] simd_registers@[j])@.kind == RegisterKind::Number
                        && simd_registers@[j]@.base == Seq::new(16, |k: int| None::<ExprModel>)
                        && simd_registers@[j]@.offset == Seq::new(16, |k: int| 0u8),
        {
            simd_registers.push(SimdRegister::new("v"));
        }
        let mut solver = new_solver(context);
        let max = int_value(context, i64::MAX);
        proof {
            reveal_strlit("MAX");
        }
        let stack_max = int_const(context, "MAX");
        let bound = int_ge(context, &stack_max, &max);
        solver_assert(&mut solver, &bound, context);
        assert(solver_facts(&solver) =~= stack_facts());
        let mut memory: Vec<(String, MemorySafeRegion)> = Vec::new();
        memory.push(
            ("sp".to_string(), MemorySafeRegion::new(AbstractExpression::Abstract("MAX".to_string()), RegionType::RW)),
        );
        let r = ARMCORTEXA {
            registers,
            simd_registers,
            zero: None,
            neg: None,
            carry: None,
            overflow: None,
            memory,
            memory_labels: Vec::new(),
            rw_queue: Vec::new(),
            alignment: 4,
            context,
            solver,
        };
        assert(r.memory@[0].1.content_spec() =~= Map::empty());
        r
    }

    /// The registers and the flags zero, negative, carry and overflow.
    pub fn get_state(&self) -> (r: (Vec<RegisterValue>, Option<FlagValue>, Option<FlagValue>, Option<FlagValue>, Option<FlagValue>))
        ensures
            r.0@.map_values(|v: RegisterValue| v@) == self.regs(),
            flag_model(r.1) == flag_model(self.zero),
            flag_model(r.2) == flag_model(self.neg),
            flag_model(r.3) == flag_model(self.carry),
            flag_model(r.4) == flag_model(self.overflow),
    {
        let mut regs: Vec<RegisterValue> = Vec::new();
        for i in 0..self.registers.len()
            invariant
                regs@.len() == i,
                forall|j: int| 0 <= j < i ==> (#[trigger] regs@[j])@ == self.registers@[j]@,
        {
            regs.push(copy_register(&self.registers[i]));
        }
        assert(regs@.map_values(|v: RegisterValue| v@) =~= self.regs());
        (regs, copy_flag(&self.zero), copy_flag(&self.neg), copy_flag(&self.carry), copy_flag(&self.overflow))
    }

    /// Writes `kind`, `base` and `offset` to the register that `register`
    /// names. A write through a 32-bit name keeps the low 32 bits of the
    /// offset, sign-extended; one to the 32-bit names of the stack pointer
    /// or the zero register is dropped. A SIMD register is set from the
    /// value in the operand's arrangement (sixteen bytes where it names
    /// none).
    pub fn set_register(&mut self, register: &Operand, kind: RegisterKind, base: Option<AbstractExpression>, offset: i64)
        requires
            old(self).wf(),
            write_target(register@) is Some,
        ensures
            final(self).wf(),
            final(self).written(old(self), register@, kind, opt_model(base), offset),
    {
        let ghost b = opt_model(base);
        match register {
            Operand::Register(prefix, num) => {
                let index: usize = match prefix {
                    RePrefix::X => *num,
                    RePrefix::W => *num,
                    RePrefix::Fp => 29,
                    RePrefix::Ra => 30,
                    RePrefix::Sp => 31,
                    _ => 32,
                };
                let off = match prefix {
                    RePrefix::W => (offset as i32) as i64,
                    _ => offset,
                };
                if *prefix == RePrefix::W && *num >= 31 {
                    return;
                }
                self.registers.set(index, RegisterValue { kind, base, offset: off });
                assert(self.regs() =~= old(self).regs().update(index as int, RegisterModel { kind, base: b, offset: off }));
                assert(self.vregs() =~= old(self).vregs());
            },
            Operand::VectorRegister(_, num) => {
                let name = arrangement_text(Arrangement::B16);
                self.simd_registers[*num].set_register(name, kind, base, offset as u128);
                proof {
                    self.lemma_simd_set(old(self), *num as int, Arrangement::B16, kind, b, offset as u128);
                }
            },
            Operand::Vector(_, num, arr) => {
                let name = arrangement_text(*arr);
                self.simd_registers[*num].set_register(name, kind, base, offset as u128);
                proof {
                    self.lemma_simd_set(old(self), *num as int, *arr, kind, b, offset as u128);
                }
            },
            _ => {},
        }
    }

    /// The names of the regions, in order.
    pub open spec fn region_names(&self) -> Seq<Seq<char>> {
        self.memory@.map_values(|p: (String, MemorySafeRegion)| p.0@)
    }

    /// The position of the region named `name`, if there is one.
    pub open spec fn region_index(&self, name: Seq<char>) -> Option<int> {
        name_index(self.region_names(), name)
    }

    /// The address of the label `name`, if it has one.
    pub open spec fn label_address(&self, name: Seq<char>) -> Option<i64> {
        if exists|i: int| 0 <= i < self.memory_labels@.len() && (#[trigger] self.memory_labels@[i]).0@ == name {
            Some(
                self.memory_labels@[choose|i: int|
                    0 <= i < self.memory_labels@.len() && (#[trigger] self.memory_labels@[i]).0@ == name].1,
            )
        } else {
            None
        }
    }

    /// `self` is `old` with `value` recorded at `address` of region `i`.
    pub open spec fn region_stored(&self, old: &Self, i: int, address: i64, value: RegisterValue) -> bool {
        &&& self.memory@.len() == old.memory@.len()
        &&& forall|j: int| 0 <= j < self.memory@.len() && j != i ==> #[trigger] self.memory@[j] == old.memory@[j]
        &&& self.memory@[i].0 == old.memory@[i].0
        &&& self.memory@[i].1.kind_spec() == old.memory@[i].1.kind_spec()
        &&& self.memory@[i].1.length_spec() == old.memory@[i].1.length_spec()
        &&& self.memory@[i].1.content_spec() == old.memory@[i].1.content_spec().insert(address, value)
    }

    /// `self` is `old` with a value of model `v` recorded at `address` of
    /// region `i`.
    pub open spec fn region_stored_as(&self, old: &Self, i: int, address: i64, v: RegisterModel) -> bool {
        &&& self.memory@.len() == old.memory@.len()
        &&& forall|j: int| 0 <= j < self.memory@.len() && j != i ==> #[trigger] self.memory@[j] == old.memory@[j]
        &&& self.memory@[i].0 == old.memory@[i].0
        &&& self.memory@[i].1.kind_spec() == old.memory@[i].1.kind_spec()
        &&& self.memory@[i].1.length_spec() == old.memory@[i].1.length_spec()
        &&& self.memory@[i].1.content_spec().dom() == old.memory@[i].1.content_spec().dom().insert(address)
        &&& self.memory@[i].1.content_spec()[address]@ == v
        &&& forall|k: i64|
            k != address && #[trigger] old.memory@[i].1.content_spec().contains_key(k) ==> self.memory@[i].1.content_spec()[k]
                == old.memory@[i].1.content_spec()[k]
    }

    /// Everything but the memory regions is as in `old`.
    pub open spec fn same_but_memory(&self, old: &Self) -> bool {
        &&& self.registers@ == old.registers@
        &&& self.simd_registers@ == old.simd_registers@
        &&& self.zero == old.zero
        &&& self.neg == old.neg
        &&& self.carry == old.carry
        &&& self.overflow == old.overflow
        &&& self.memory_labels@ == old.memory_labels@
        &&& self.rw_queue@ == old.rw_queue@
        &&& self.alignment == old.alignment
        &&& self.context == old.context
        &&& self.solver == old.solver
    }

    /// The position of the region named `name`.
    pub fn find_region(&self, name: &str) -> (r: Option<usize>)
        requires
            self.wf(),
        ensures
            match r {
                Some(i) => self.region_index(name@) == Some(i as int) && i < self.memory@.len(),
                None => self.region_index(name@) is None,
            },
    {
        for i in 0..self.memory.len()
            invariant
                self.wf(),
                forall|j: int| 0 <= j < i ==> (#[trigger] self.memory@[j]).0@ != name@,
        {
            if crate::common::text_is(&self.memory[i].0, name) {
                assert(self.region_names()[i as int] == name@);
                let ghost c = choose|k: int| 0 <= k < self.region_names().len() && #[trigger] self.region_names()[k] == name@;
                assert(c == i as int) by {
                    if c < i {
                    } else if c > i {
                        assert(self.memory@[i as int].0@ != self.memory@[c].0@);
                    }
                }
                return Some(i);
            }
        }
        proof {
            if exists|k: int| 0 <= k < self.region_names().len() && #[trigger] self.region_names()[k] == name@ {
                let k = choose|k: int| 0 <= k < self.region_names().len() && #[trigger] self.region_names()[k] == name@;
                assert(self.memory@[k].0@ == name@);
            }
        }
        None
    }

    /// The address of the label `name`.
    pub fn find_label(&self, name: &str) -> (r: Option<i64>)
        requires
            self.wf(),
        ensures
            r == self.label_address(name@),
    {
        for i in 0..self.memory_labels.len()
            invariant
                self.wf(),
                forall|j: int| 0 <= j < i ==> (#[trigger] self.memory_labels@[j]).0@ != name@,
        {
            if crate::common::text_is(&self.memory_labels[i].0, name) {
                assert(self.memory_labels@[i as int].0@ == name@);
                let ghost c = choose|k: int|
                    0 <= k < self.memory_labels@.len() && (#[trigger] self.memory_labels@[k]).0@ == name@;
                assert(c == i as int) by {
                    if c < i {
                    } else if c > i {
                        assert(self.memory_labels@[i as int].0@ != self.memory_labels@[c].0@);
                    }
                }
                return Some(self.memory_labels[i].1);
            }
        }
        None
    }

    /// The value that reading `reg` gives: a general purpose register, an
    /// immediate as a known number, or a SIMD register read as one value.
    pub fn get_register(&mut self, reg: &Operand) -> (r: RegisterValue)
        requires
            old(self).wf(),
            readable(reg@),
        ensures
            *final(self) == *old(self),
            r@ == old(self).read(reg@),
    {
        match reg {
            Operand::Register(prefix, index) => match prefix {
                RePrefix::Fp => copy_register(&self.registers[29]),
                RePrefix::Ra => copy_register(&self.registers[30]),
                RePrefix::Sp => copy_register(&self.registers[31]),
                RePrefix::Ze => copy_register(&self.registers[32]),
                _ => copy_register(&self.registers[*index]),
            },
            Operand::Immediate(value) => RegisterValue::new(RegisterKind::Immediate, None, *value),
            Operand::VectorRegister(_, index) => self.simd_registers[*index].get_as_register(),
            Operand::Vector(_, index, _) => self.simd_registers[*index].get_as_register(),
            Operand::VectorAccess(_, index, _, _) => self.simd_registers[*index].get_as_register(),
            _ => RegisterValue::new(RegisterKind::Number, None, 0),
        }
    }

    /// A copy of the SIMD register that `reg` names.
    pub fn get_simd_register(&mut self, reg: &Operand) -> (r: SimdRegister)
        requires
            old(self).wf(),
            simd_operand(reg@),
        ensures
            *final(self) == *old(self),
            r@ == old(self).vregs()[simd_index(reg@)],
    {
        match reg {
            Operand::VectorRegister(_, index) => copy_simd(&self.simd_registers[*index]),
            Operand::Vector(_, index, _) => copy_simd(&self.simd_registers[*index]),
            _ => SimdRegister::new("v"),
        }
    }

    /// Puts `src` in the SIMD register that `reg` names.
    pub fn set_simd_register(&mut self, reg: &Operand, src: SimdRegister)
        requires
            old(self).wf(),
            simd_operand(reg@),
        ensures
            final(self).wf(),
            final(self).same_but_registers(old(self)),
            final(self).regs() == old(self).regs(),
            final(self).vregs() == old(self).vregs().update(simd_index(reg@), src@),
    {
        let ghost v = src@;
        match reg {
            Operand::VectorRegister(_, index) => {
                self.simd_registers.set(*index, src);
            },
            Operand::Vector(_, index, _) => {
                self.simd_registers.set(*index, src);
            },
            _ => {},
        }
        assert(self.vregs() =~= old(self).vregs().update(simd_index(reg@), v));
        assert(self.regs() =~= old(self).regs());
    }

    /// Writes to the register `register` names as a prefix and number.
    pub fn set_register_from_tuple(
        &mut self,
        register: (RePrefix, usize),
        kind: RegisterKind,
        base: Option<AbstractExpression>,
        offset: i64,
    )
        requires
            old(self).wf(),
            write_target(OperandModel::Register(register.0, register.1)) is Some,
        ensures
            final(self).wf(),
            final(self).written(old(self), OperandModel::Register(register.0, register.1), kind, opt_model(base), offset),
    {
        self.set_register(&Operand::Register(register.0, register.1), kind, base, offset);
    }

    /// Sets the register named by the text `register` to the known number
    /// `value`.
    pub fn set_immediate(&mut self, register: String, value: u64)
        requires
            old(self).wf(),
            operand_spec(register@) is Some,
            write_target(operand_spec(register@)->0) is Some,
        ensures
            final(self).wf(),
            final(self).written(old(self), operand_spec(register@)->0, RegisterKind::Immediate, None, value as i64),
    {
        self.set_register(&operand_from_string(register), RegisterKind::Immediate, None, value as i64);
    }

    /// Sets the register named by the text `register` to the symbolic
    /// address `value`.
    pub fn set_abstract(&mut self, register: String, value: AbstractExpression)
        requires
            old(self).wf(),
            operand_spec(register@) is Some,
            write_target(operand_spec(register@)->0) is Some,
        ensures
            final(self).wf(),
            final(self).written(old(self), operand_spec(register@)->0, RegisterKind::RegisterBase, Some(value@), 0),
    {
        self.set_register(&operand_from_string(register), RegisterKind::RegisterBase, Some(value), 0);
    }

    /// Records the symbolic address `base` + `offset` at `address` of the
    /// stack.
    pub fn set_stack_element(&mut self, address: i64, base: Option<AbstractExpression>, offset: i64)
        requires
            old(self).wf(),
            old(self).region_index("sp"@) is Some,
        ensures
            final(self).wf(),
            final(self).same_but_memory(old(self)),
            final(self).region_stored(
                old(self),
                old(self).region_index("sp"@)->0,
                address,
                RegisterValue { kind: RegisterKind::RegisterBase, base, offset },
            ),
    {
        let i = self.find_region("sp");
        match i {
            Some(i) => {
                self.memory[i].1.insert(address, RegisterValue { kind: RegisterKind::RegisterBase, base, offset });
                proof {
                    self.lemma_names_kept(old(self));
                }
            },
            None => {},
        }
    }

    /// Records `value` at `address` of the region named `region`: in the
    /// region where there is one, else in a new readable and writable one
    /// of length zero.
    fn add_memory(&mut self, region: String, address: i64, value: RegisterValue)
        requires
            old(self).wf(),
        ensures
            final(self).wf(),
            final(self).same_but_memory(old(self)),
            match old(self).region_index(region@) {
                Some(i) => final(self).region_stored(old(self), i, address, value),
                None => final(self).memory@.len() == old(self).memory@.len() + 1
                    && final(self).memory@.take(old(self).memory@.len() as int) == old(self).memory@
                    && final(self).memory@.last().0 == region
                    && final(self).memory@.last().1.kind_spec() == RegionType::RW
                    && final(self).memory@.last().1.length_spec() == ExprModel::Immediate(0)
                    && final(self).memory@.last().1.content_spec() == Map::<i64, RegisterValue>::empty().insert(address, value),
            },
    {
        match self.find_region(region.as_str()) {
            Some(i) => {
                self.memory[i].1.insert(address, value);
                proof {
                    self.lemma_names_kept(old(self));
                }
            },
            None => {
                let mut region_map = MemorySafeRegion::new(AbstractExpression::Immediate(0), RegionType::RW);
                assert(region_map.content_spec() =~= Map::empty());
                region_map.insert(address, value);
                self.memory.push((region, region_map));
                proof {
                    assert(self.memory@.take(old(self).memory@.len() as int) =~= old(self).memory@);
                    assert forall|i: int, j: int| 0 <= i < j < self.memory@.len() implies (#[trigger] self.memory@[i]).0@
                        != (#[trigger] self.memory@[j]).0@ by {
                        if j == old(self).memory@.len() {
                            assert(self.memory@[i] == old(self).memory@[i]);
                            assert(old(self).region_names()[i] == old(self).memory@[i].0@);
                        } else {
                            assert(old(self).memory@[i].0@ != old(self).memory@[j].0@);
                        }
                    }
                }
            },
        }
    }

    /// Records the known number `value` at `address` of the region named
    /// `region`, which is made, readable and writable and of length zero,
    /// where there is none.
    pub fn add_memory_value(&mut self, region: String, address: i64, value: i64)
        requires
            old(self).wf(),
        ensures
            final(self).wf(),
            final(self).same_but_memory(old(self)),
            match old(self).region_index(region@) {
                Some(i) => final(self).region_stored(
                    old(self),
                    i,
                    address,
                    RegisterValue { kind: RegisterKind::Immediate, base: None, offset: value },
                ),
                None => final(self).memory@.len() == old(self).memory@.len() + 1
                    && final(self).memory@.take(old(self).memory@.len() as int) == old(self).memory@
                    && final(self).memory@.last().0 == region
                    && final(self).memory@.last().1.kind_spec() == RegionType::RW
                    && final(self).memory@.last().1.length_spec() == ExprModel::Immediate(0)
                    && final(self).memory@.last().1.content_spec() == Map::<i64, RegisterValue>::empty().insert(
                    address,
                    RegisterValue { kind: RegisterKind::Immediate, base: None, offset: value },
                ),
            },
    {
        self.add_memory(region, address, RegisterValue::new(RegisterKind::Immediate, None, value));
    }

    /// Records the symbolic address `value` at `address` of the region
    /// named `region`, which is made, readable and writable and of length
    /// zero, where there is none.
    pub fn add_memory_value_abstract(&mut self, region: String, address: i64, value: AbstractExpression)
        requires
            old(self).wf(),
        ensures
            final(self).wf(),
            final(self).same_but_memory(old(self)),
            match old(self).region_index(region@) {
                Some(i) => final(self).region_stored(
                    old(self),
                    i,
                    address,
                    RegisterValue { kind: RegisterKind::RegisterBase, base: Some(value), offset: 0 },
                ),
                None => final(self).memory@.len() == old(self).memory@.len() + 1
                    && final(self).memory@.take(old(self).memory@.len() as int) == old(self).memory@
                    && final(self).memory@.last().0 == region
                    && final(self).memory@.last().1.kind_spec() == RegionType::RW
                    && final(self).memory@.last().1.length_spec() == ExprModel::Immediate(0)
                    && final(self).memory@.last().1.content_spec() == Map::<i64, RegisterValue>::empty().insert(
                    address,
                    RegisterValue { kind: RegisterKind::RegisterBase, base: Some(value), offset: 0 },
                ),
            },
    {
        self.add_memory(region, address, RegisterValue::new(RegisterKind::RegisterBase, Some(value), 0));
    }

    /// Makes `name` a fresh region of kind `ty` and length `length`,
    /// replacing a region of that name.
    pub fn add_memory_region(&mut self, name: String, ty: RegionType, length: AbstractExpression)
        requires
            old(self).wf(),
            length matches AbstractExpression::Immediate(l) ==> l <= 0x2000_0000_0000_0000,
        ensures
            final(self).wf(),
            final(self).same_but_memory(old(self)),
            match old(self).region_index(name@) {
                Some(i) => final(self).memory@.len() == old(self).memory@.len()
                    && (forall|j: int| 0 <= j < final(self).memory@.len() && j != i ==> #[trigger] final(self).memory@[j] == old(self).memory@[j])
                    && final(self).memory@[i].0 == name
                    && final(self).memory@[i].1.kind_spec() == ty
                    && final(self).memory@[i].1.length_spec() == length@,
                None => final(self).memory@.len() == old(self).memory@.len() + 1
                    && final(self).memory@.take(old(self).memory@.len() as int) == old(self).memory@
                    && final(self).memory@.last().0 == name
                    && final(self).memory@.last().1.kind_spec() == ty
                    && final(self).memory@.last().1.length_spec() == length@,
            },
            forall|k: i64| #[trigger] final(self).memory@[final(self).region_index(name@)->0].1.content_spec().contains_key(k)
                <==> (length matches AbstractExpression::Immediate(l) && 0 <= k < 4 * l && k % 4 == 0),
    {
        let ghost l = length@;
        let new_region = MemorySafeRegion::new(length, ty);
        match self.find_region(name.as_str()) {
            Some(i) => {
                self.memory.set(i, (name, new_region));
                proof {
                    self.lemma_names_kept(old(self));
                    self.lemma_index_of(i as int, name@);
                }
            },
            None => {
                self.memory.push((name, new_region));
                proof {
                    assert(self.memory@.take(old(self).memory@.len() as int) =~= old(self).memory@);
                    assert forall|i: int, j: int| 0 <= i < j < self.memory@.len() implies (#[trigger] self.memory@[i]).0@
                        != (#[trigger] self.memory@[j]).0@ by {
                        if j == old(self).memory@.len() {
                            assert(self.memory@[i] == old(self).memory@[i]);
                            assert(old(self).region_names()[i] == old(self).memory@[i].0@);
                        } else {
                            assert(old(self).memory@[i].0@ != old(self).memory@[j].0@);
                        }
                    }
                    self.lemma_index_of(old(self).memory@.len() as int, name@);
                }
            },
        }
    }

    proof fn lemma_index_of(&self, i: int, name: Seq<char>)
        requires
            self.wf(),
            0 <= i < self.memory@.len(),
            self.memory@[i].0@ == name,
        ensures
            self.region_index(name) == Some(i),
    {
        assert(self.region_names()[i] == name);
        let c = choose|k: int| 0 <= k < self.region_names().len() && #[trigger] self.region_names()[k] == name;
        assert(c == i) by {
            if c < i {
                assert(self.memory@[c].0@ != self.memory@[i].0@);
            } else if c > i {
                assert(self.memory@[i].0@ != self.memory@[c].0@);
            }
        }
    }

    /// Where a label lies: the region `memory` at address zero.
    fn label_to_memory_index(&self, _label: String) -> (r: (String, i64))
        ensures
            r.0@ == "memory"@,
            r.1 == 0,
    {
        ("memory".to_string(), 0)
    }

    /// Whether the stack pointer holds `sp` again, with offset zero.
    pub fn check_stack_pointer_restored(&self) -> (r: bool)
        requires
            self.wf(),
        ensures
            r == (self.regs()[31].base == Some(ExprModel::Abstract("sp"@)) && self.regs()[31].offset == 0),
    {
        let s = &self.registers[31];
        let sp = AbstractExpression::Abstract("sp".to_string());
        match &s.base {
            Some(b) => expression_eq(b, &sp) && s.offset == 0,
            None => false,
        }
    }

    /// Forgets the recorded memory accesses.
    pub fn clear_rw_queue(&mut self)
        ensures
            final(self).rw_queue@.len() == 0,
            final(self).registers@ == old(self).registers@,
            final(self).simd_registers@ == old(self).simd_registers@,
            final(self).zero == old(self).zero && final(self).neg == old(self).neg,
            final(self).carry == old(self).carry && final(self).overflow == old(self).overflow,
            final(self).memory@ == old(self).memory@,
            final(self).memory_labels@ == old(self).memory_labels@,
            final(self).alignment == old(self).alignment,
            final(self).context == old(self).context,
            final(self).solver == old(self).solver,
    {
        self.rw_queue = Vec::new();
    }

    /// The memory accesses recorded since the queue was last cleared.
    pub fn read_rw_queue(&self) -> (r: Vec<MemoryAccess>)
        ensures
            r@ == self.rw_queue@,
    {
        let mut r: Vec<MemoryAccess> = Vec::new();
        for i in 0..self.rw_queue.len()
            invariant
                r@ == self.rw_queue@.take(i as int),
        {
            let a = &self.rw_queue[i];
            r.push(MemoryAccess { kind: a.kind, base: a.base.clone(), offset: a.offset });
            assert(r@ =~= self.rw_queue@.take(i + 1));
        }
        assert(self.rw_queue@.take(self.rw_queue@.len() as int) =~= self.rw_queue@);
        r
    }

    /// Sets the alignment of memory values.
    pub fn change_alignment(&mut self, value: i64)
        ensures
            final(self).alignment == value,
            final(self).registers@ == old(self).registers@,
            final(self).simd_registers@ == old(self).simd_registers@,
            final(self).zero == old(self).zero && final(self).neg == old(self).neg,
            final(self).carry == old(self).carry && final(self).overflow == old(self).overflow,
            final(self).memory@ == old(self).memory@,
            final(self).memory_labels@ == old(self).memory_labels@,
            final(self).rw_queue@ == old(self).rw_queue@,
            final(self).context == old(self).context,
            final(self).solver == old(self).solver,
    {
        self.alignment = value;
    }

    /// The alignment of memory values.
    pub fn get_alignment(&mut self) -> (r: i64)
        ensures
            r == old(self).alignment,
            *final(self) == *old(self),
    {
        self.alignment
    }

    proof fn lemma_names_kept(&self, old: &Self)
        requires
            old.wf(),
            self.memory@.len() == old.memory@.len(),
            forall|j: int| 0 <= j < self.memory@.len() ==> (#[trigger] self.memory@[j]).0@ == old.memory@[j].0@,
            self.registers@ == old.registers@,
            self.simd_registers@ == old.simd_registers@,
            self.memory_labels@ == old.memory_labels@,
            self.solver == old.solver,
            self.context == old.context,
        ensures
            self.wf(),
    {
        assert forall|i: int, j: int| 0 <= i < j < self.memory@.len() implies (#[trigger] self.memory@[i]).0@
            != (#[trigger] self.memory@[j]).0@ by {
            assert(old.memory@[i].0@ != old.memory@[j].0@);
        }
    }

    proof fn lemma_simd_set(&self, old: &Self, i: int, a: Arrangement, kind: RegisterKind, base: Option<ExprModel>, offset: u128)
        requires
            0 <= i < 32,
            old.wf(),
            self.registers@ == old.registers@,
            self.simd_registers@.len() == 32,
            forall|j: int| 0 <= j < 32 && j != i ==> self.simd_registers@[j] == old.simd_registers@[j],
            self.simd_registers@[i]@.kind == kind,
            self.simd_registers@[i]@.offset == crate::ghash::be_bytes128(offset),
            base is None ==> self.simd_registers@[i]@.base == Seq::new(16, |k: int| None::<ExprModel>),
            base matches Some(b) ==> self.simd_registers@[i]@.base[15] == old.simd_registers@[i]@.base[15]
                && forall|k: int| 0 <= k < 15 ==> #[trigger] self.simd_registers@[i]@.base[k] == Some(ExprModel::Expression(
                    seq!['&'],
                    Box::new(ExprModel::Abstract(arrangement_name(a) + decimal(k as nat))),
                    Box::new(b),
                )),
        ensures
            self.vregs() == old.vregs().update(i, simd_after_set(old.vregs()[i], arrangement_name(a), kind, base, offset)),
            self.regs() == old.regs(),
    {
        let want = simd_after_set(old.vregs()[i], arrangement_name(a), kind, base, offset);
        assert(self.simd_registers@[i]@.base.len() == 16);
        assert(self.simd_registers@[i]@.base =~= want.base);
        assert(self.vregs() =~= old.vregs().update(i, want));
        assert(self.regs() =~= old.regs());
    }
}

/// A register read gives back what was written to it, and a write to one
/// general purpose register leaves the others as they were.
pub proof fn law_read_after_write(
    old: &ARMCORTEXA,
    new: &ARMCORTEXA,
    op: OperandModel,
    kind: RegisterKind,
    base: Option<ExprModel>,
    offset: i64,
    other: OperandModel,
)
    requires
        old.wf(),
        new.written(old, op, kind, base, offset),
        write_target(op) matches Some(WriteTarget::General(_)),
        readable(op),
        readable(other),
        general_index(other) != general_index(op),
    ensures
        new.read(op) == (RegisterModel { kind, base, offset }),
        new.read(other) == old.read(other),
{
}

/// The general purpose register that reading `op` gives, or -1 where it
/// reads none.
pub open spec fn general_index(op: OperandModel) -> int {
    match op {
        OperandModel::Register(p, n) => match p {
            RePrefix::Fp => 29,
            RePrefix::Ra => 30,
            RePrefix::Sp => 31,
            RePrefix::Ze => 32,
            _ => n as int,
        },
        _ => -1,
    }
}

} // verus!
