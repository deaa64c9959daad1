use bums::computer::memory::access_verdict;
use bums::smt::Satisfiability::{Sat, Unknown, Unsat};
use bums::common::{
    generate_expression, AbstractExpression, ExecuteReturnType, FlagValue, RegionType, RegisterKind,
    RegisterValue,
};
use bums::computer::ARMCORTEXA;
use bums::instruction_parser::{Arrangement, Instruction, Operand, RePrefix};
use z3::{Config, Context};

fn abs(name: &str) -> AbstractExpression {
    AbstractExpression::Abstract(name.to_string())
}

fn x(n: usize) -> Operand {
    Operand::Register(RePrefix::X, n)
}

#[test]
fn test_arithmetic_add_imm_registers() {
    let cfg = Config::new();
    let ctx = Context::new(&cfg);
    let mut computer = ARMCORTEXA::new(&ctx);

    computer.set_register(&Operand::Register(RePrefix::X, 1), RegisterKind::Immediate, None, 2);
    computer.set_register(&Operand::Register(RePrefix::X, 2), RegisterKind::Immediate, None, 3);
    let _ = computer.execute(0, &Instruction::new("add x0, x1, x2".to_string()));
    let result = computer.get_register(&Operand::Register(RePrefix::X, 0)).offset;
    assert_eq!(result, 5);
}

#[test]
fn test_arithmetic_add_abstract_and_imm() {
    let cfg = Config::new();
    let ctx = Context::new(&cfg);
    let mut computer = ARMCORTEXA::new(&ctx);

    computer.set_register(
        &Operand::Register(RePrefix::X, 1),
        RegisterKind::RegisterBase,
        Some(AbstractExpression::Abstract("hello,".to_string())),
        0,
    );
    computer.set_register(&Operand::Register(RePrefix::X, 2), RegisterKind::Immediate, None, 5);
    let _ = computer.execute(0, &Instruction::new("add x0, x1, x2".to_string()));
    let result = computer.get_register(&Operand::Register(RePrefix::X, 0));
    assert_eq!(
        result,
        RegisterValue {
            kind: RegisterKind::RegisterBase,
            base: Some(AbstractExpression::Abstract("hello,".to_string())),
            offset: 5,
        }
    );
}

#[test]
fn test_arithmetic_add_abstract_registers() {
    let cfg = Config::new();
    let ctx = Context::new(&cfg);
    let mut computer = ARMCORTEXA::new(&ctx);

    computer.set_register(
        &Operand::Register(RePrefix::X, 1),
        RegisterKind::RegisterBase,
        Some(AbstractExpression::Abstract("hello,".to_string())),
        0,
    );
    computer.set_register(
        &Operand::Register(RePrefix::X, 2),
        RegisterKind::RegisterBase,
        Some(AbstractExpression::Abstract("world!".to_string())),
        0,
    );
    let _ = computer.execute(0, &Instruction::new("add x0, x1, x2".to_string()));
    let result = computer.get_register(&Operand::Register(RePrefix::X, 0));
    assert_eq!(
        result,
        RegisterValue {
            kind: RegisterKind::RegisterBase,
            base: Some(generate_expression(
                "+",
                AbstractExpression::Abstract("hello,".to_string()),
                AbstractExpression::Abstract("world!".to_string())
            )),
            offset: 0,
        }
    );
}

#[test]
fn test_arithmetic_add_with_shift() {
    let cfg = Config::new();
    let ctx = Context::new(&cfg);
    let mut computer = ARMCORTEXA::new(&ctx);

    computer.set_register(
        &Operand::Register(RePrefix::X, 1),
        RegisterKind::RegisterBase,
        Some(AbstractExpression::Abstract("hello,".to_string())),
        0,
    );
    computer.set_register(&Operand::Register(RePrefix::X, 2), RegisterKind::Immediate, None, 3);
    let _ = computer.execute(0, &Instruction::new("add x0, x1, x2, lsl#2".to_string()));
    let result = computer.get_register(&Operand::Register(RePrefix::X, 0));
    assert_eq!(
        result,
        RegisterValue {
            kind: RegisterKind::RegisterBase,
            base: Some(AbstractExpression::Abstract("hello,".to_string())),
            offset: 12,
        }
    );
}

#[test]
fn test_arithmetic_add_abstract_and_imm_instruction() {
    let cfg = Config::new();
    let ctx = Context::new(&cfg);
    let mut computer = ARMCORTEXA::new(&ctx);

    computer.set_register(
        &Operand::Register(RePrefix::X, 1),
        RegisterKind::RegisterBase,
        Some(AbstractExpression::Abstract("hello,".to_string())),
        0,
    );
    let _ = computer.execute(0, &Instruction::new("add x0, x1, #7".to_string()));
    let result = computer.get_register(&Operand::Register(RePrefix::X, 0));
    assert_eq!(
        result,
        RegisterValue {
            kind: RegisterKind::RegisterBase,
            base: Some(AbstractExpression::Abstract("hello,".to_string())),
            offset: 7,
        }
    );
}

#[test]
fn a_new_machine_names_its_registers() {
    let cfg = Config::new();
    let ctx = Context::new(&cfg);
    let mut computer = ARMCORTEXA::new(&ctx);
    assert_eq!(computer.get_register(&x(7)), RegisterValue::new(RegisterKind::RegisterBase, Some(abs("x7")), 0));
    assert_eq!(computer.get_register(&x(29)), RegisterValue::new(RegisterKind::RegisterBase, Some(abs("x29")), 0));
    assert_eq!(
        computer.get_register(&Operand::Register(RePrefix::Ra, 0)),
        RegisterValue::new(RegisterKind::RegisterBase, Some(abs("return")), 0)
    );
    assert_eq!(
        computer.get_register(&Operand::Register(RePrefix::Sp, 0)),
        RegisterValue::new(RegisterKind::RegisterBase, Some(abs("sp")), 0)
    );
    assert_eq!(
        computer.get_register(&Operand::Register(RePrefix::Ze, 0)),
        RegisterValue::new(RegisterKind::Immediate, None, 0)
    );
    assert!(computer.check_stack_pointer_restored());
    assert_eq!(computer.get_alignment(), 4);
    assert!(computer.read_rw_queue().is_empty());
    assert_eq!(computer.memory.len(), 1);
    assert_eq!(computer.memory[0].0, "sp");
}

#[test]
fn word_writes_keep_the_low_half_sign_extended() {
    let cfg = Config::new();
    let ctx = Context::new(&cfg);
    let mut computer = ARMCORTEXA::new(&ctx);
    computer.set_register(&Operand::Register(RePrefix::W, 3), RegisterKind::Immediate, None, 0x1_8000_0000);
    assert_eq!(computer.get_register(&x(3)).offset, -0x8000_0000);
    // the 32-bit name of the stack pointer cannot be written
    computer.set_register(&Operand::Register(RePrefix::W, 31), RegisterKind::Immediate, None, 5);
    assert_eq!(
        computer.get_register(&Operand::Register(RePrefix::Sp, 0)),
        RegisterValue::new(RegisterKind::RegisterBase, Some(abs("sp")), 0)
    );
}

#[test]
fn subtraction_and_logic_on_known_numbers() {
    let cfg = Config::new();
    let ctx = Context::new(&cfg);
    let mut computer = ARMCORTEXA::new(&ctx);
    computer.set_immediate("x1".to_string(), 12);
    computer.set_immediate("x2".to_string(), 10);
    let _ = computer.execute(0, &Instruction::new("sub x0, x1, x2".to_string()));
    assert_eq!(computer.get_register(&x(0)).offset, 2);
    let _ = computer.execute(0, &Instruction::new("and x3, x1, x2".to_string()));
    assert_eq!(computer.get_register(&x(3)).offset, 8);
    let _ = computer.execute(0, &Instruction::new("orr x3, x1, x2".to_string()));
    assert_eq!(computer.get_register(&x(3)).offset, 14);
    let _ = computer.execute(0, &Instruction::new("eor x3, x1, x2".to_string()));
    assert_eq!(computer.get_register(&x(3)).offset, 6);
    let _ = computer.execute(0, &Instruction::new("bic x3, x1, x2".to_string()));
    assert_eq!(computer.get_register(&x(3)).offset, 4);
    let _ = computer.execute(0, &Instruction::new("mul x3, x1, x2".to_string()));
    assert_eq!(computer.get_register(&x(3)).offset, 120);
    // an unknown number makes the result unknown
    computer.set_register(&x(4), RegisterKind::Number, None, 0);
    computer.set_register(&x(5), RegisterKind::Number, None, 0);
    let _ = computer.execute(0, &Instruction::new("add x3, x4, x5".to_string()));
    assert_eq!(computer.get_register(&x(3)), RegisterValue::new(RegisterKind::Number, None, 0));
}

#[test]
fn moves_shifts_and_byte_reversal() {
    let cfg = Config::new();
    let ctx = Context::new(&cfg);
    let mut computer = ARMCORTEXA::new(&ctx);
    // with two operands these are not arithmetic; with a third they are
    computer.set_immediate("x2".to_string(), 5);
    let _ = computer.execute(0, &Instruction::new("mov x1, x2, lsl#1".to_string()));
    assert_eq!(
        computer.get_register(&x(1)),
        RegisterValue::new(
            RegisterKind::Immediate,
            Some(generate_expression("lsl", AbstractExpression::Empty, AbstractExpression::Immediate(1))),
            10
        )
    );
    computer.set_immediate("x2".to_string(), 0x0102030405060708);
    let _ = computer.execute(0, &Instruction::new("rev x3, x2, x2".to_string()));
    assert_eq!(computer.get_register(&x(3)).offset, 0x0807060504030201);
    computer.set_immediate("x4".to_string(), 1);
    let _ = computer.execute(0, &Instruction::new("clz x5, x4, x4".to_string()));
    assert_eq!(computer.get_register(&x(5)), RegisterValue::new(RegisterKind::Number, None, 63));
    computer.set_immediate("x6".to_string(), 64);
    computer.set_immediate("x7".to_string(), 3);
    let _ = computer.execute(0, &Instruction::new("lsr x8, x6, x7".to_string()));
    let r = computer.get_register(&x(8));
    assert_eq!(r.offset, 8);
    assert_eq!(
        r.base,
        Some(generate_expression("ror", AbstractExpression::Empty, AbstractExpression::Immediate(8)))
    );
}

#[test]
fn compare_sets_known_flags_and_branches_follow_them() {
    let cfg = Config::new();
    let ctx = Context::new(&cfg);
    let mut computer = ARMCORTEXA::new(&ctx);
    // no flag is set yet
    assert_eq!(
        computer.execute(0, &Instruction::new("b.ne loop".to_string())),
        Err("Flag cannot be branched on since it has not been set within the program yet".to_string())
    );
    computer.set_immediate("x1".to_string(), 3);
    computer.set_immediate("x2".to_string(), 5);
    let _ = computer.execute(0, &Instruction::new("cmp x1, x2".to_string()));
    assert_eq!(computer.zero, Some(FlagValue::Real(false)));
    assert_eq!(computer.neg, Some(FlagValue::Real(true)));
    assert_eq!(
        computer.execute(0, &Instruction::new("b.ne loop".to_string())),
        Ok(ExecuteReturnType::JumpLabel("loop".to_string()))
    );
    assert_eq!(computer.execute(0, &Instruction::new("b.eq loop".to_string())), Ok(ExecuteReturnType::Next));
    let _ = computer.execute(0, &Instruction::new("cmp x1, x1".to_string()));
    assert_eq!(computer.zero, Some(FlagValue::Real(true)));
    assert_eq!(
        computer.execute(0, &Instruction::new("b.eq done".to_string())),
        Ok(ExecuteReturnType::JumpLabel("done".to_string()))
    );
}

#[test]
fn compare_of_addresses_gives_symbolic_flags() {
    let cfg = Config::new();
    let ctx = Context::new(&cfg);
    let mut computer = ARMCORTEXA::new(&ctx);
    computer.set_abstract("x1".to_string(), abs("n"));
    computer.set_immediate("x2".to_string(), 4);
    let _ = computer.execute(0, &Instruction::new("cmp x1, x2".to_string()));
    match &computer.zero {
        Some(FlagValue::Abstract(c)) => {
            assert_eq!(c.op, "==");
            assert_eq!(*c.right, AbstractExpression::Immediate(0));
        }
        other => panic!("unexpected zero flag {:?}", other),
    }
    match computer.execute(0, &Instruction::new("b.ne loop".to_string())) {
        Ok(ExecuteReturnType::ConditionalJumpLabel(c, l)) => {
            assert_eq!(c.op, "!=");
            assert_eq!(l, "loop");
        }
        other => panic!("unexpected result {:?}", other),
    }
}

#[test]
fn calls_returns_and_zero_tests() {
    let cfg = Config::new();
    let ctx = Context::new(&cfg);
    let mut computer = ARMCORTEXA::new(&ctx);
    assert_eq!(
        computer.execute(0, &Instruction::new("ret".to_string())),
        Ok(ExecuteReturnType::JumpLabel("return".to_string()))
    );
    assert_eq!(
        computer.execute(17, &Instruction::new("bl helper".to_string())),
        Ok(ExecuteReturnType::JumpLabel("helper".to_string()))
    );
    assert_eq!(
        computer.get_register(&Operand::Register(RePrefix::Ra, 0)),
        RegisterValue::new(RegisterKind::Immediate, None, 17)
    );
    computer.set_immediate("x3".to_string(), 0);
    assert_eq!(
        computer.execute(0, &Instruction::new("cbz x3, skip".to_string())),
        Ok(ExecuteReturnType::JumpLabel("skip".to_string()))
    );
    assert_eq!(computer.execute(0, &Instruction::new("cbnz x3, skip".to_string())), Ok(ExecuteReturnType::Next));
}

#[test]
fn loads_within_a_region_are_allowed_and_outside_refused() {
    let cfg = Config::new();
    let ctx = Context::new(&cfg);
    let mut computer = ARMCORTEXA::new(&ctx);
    computer.add_memory_region("input".to_string(), RegionType::RW, AbstractExpression::Immediate(16));
    computer.set_abstract("x0".to_string(), abs("input"));
    computer.add_memory_value("input".to_string(), 8, 42);
    assert_eq!(computer.execute(0, &Instruction::new("ldr x1, [x0, #8]".to_string())), Ok(ExecuteReturnType::Next));
    assert_eq!(computer.get_register(&x(1)), RegisterValue::new(RegisterKind::Immediate, None, 42));
    assert_eq!(computer.read_rw_queue().len(), 1);
    assert_eq!(computer.read_rw_queue()[0].kind, RegionType::READ);
    assert_eq!(computer.read_rw_queue()[0].base, "input");
    assert_eq!(computer.read_rw_queue()[0].offset, 8);
    assert_eq!(
        computer.execute(0, &Instruction::new("ldr x1, [x0, #400]".to_string())),
        Err("Accessing address outside allowable memory regions Abstract(\"input\"), 400".to_string())
    );
    computer.clear_rw_queue();
    assert!(computer.read_rw_queue().is_empty());
}

#[test]
fn stores_record_values_and_respect_read_only_regions() {
    let cfg = Config::new();
    let ctx = Context::new(&cfg);
    let mut computer = ARMCORTEXA::new(&ctx);
    computer.add_memory_region("out".to_string(), RegionType::RW, AbstractExpression::Immediate(8));
    computer.add_memory_region("key".to_string(), RegionType::READ, AbstractExpression::Immediate(4));
    computer.set_abstract("x0".to_string(), abs("out"));
    computer.set_abstract("x1".to_string(), abs("key"));
    computer.set_immediate("x2".to_string(), 9);
    assert_eq!(computer.execute(0, &Instruction::new("str x2, [x0, #4]".to_string())), Ok(ExecuteReturnType::Next));
    assert_eq!(computer.execute(0, &Instruction::new("ldr x3, [x0, #4]".to_string())), Ok(ExecuteReturnType::Next));
    assert_eq!(computer.get_register(&x(3)), RegisterValue::new(RegisterKind::Immediate, None, 9));
    assert_eq!(
        computer.execute(0, &Instruction::new("str x2, [x1]".to_string())),
        Err("Access does not match region type READ WRITE Abstract(\"key\")".to_string())
    );
    // a symbolic address that names no region
    computer.set_register(
        &x(5),
        RegisterKind::RegisterBase,
        Some(generate_expression("+", abs("q"), AbstractExpression::Immediate(4))),
        0,
    );
    assert_eq!(
        computer.execute(0, &Instruction::new("ldr x3, [x5]".to_string())),
        Err("No matching region found for access Expression(\"+\", Abstract(\"q\"), Immediate(4)), 0".to_string())
    );
}

#[test]
fn pairs_load_and_store_two_words() {
    let cfg = Config::new();
    let ctx = Context::new(&cfg);
    let mut computer = ARMCORTEXA::new(&ctx);
    computer.add_memory_region("buf".to_string(), RegionType::RW, AbstractExpression::Immediate(16));
    computer.set_abstract("x0".to_string(), abs("buf"));
    computer.set_immediate("x1".to_string(), 1);
    computer.set_immediate("x2".to_string(), 2);
    assert_eq!(computer.execute(0, &Instruction::new("stp x1, x2, [x0]".to_string())), Ok(ExecuteReturnType::Next));
    assert_eq!(computer.execute(0, &Instruction::new("ldp x3, x4, [x0]".to_string())), Ok(ExecuteReturnType::Next));
    assert_eq!(computer.get_register(&x(3)).offset, 1);
    assert_eq!(computer.get_register(&x(4)).offset, 2);
    assert_eq!(computer.read_rw_queue().len(), 4);
}

fn v(n: usize, a: Arrangement) -> Operand {
    Operand::Vector(RePrefix::V, n, a)
}

#[test]
fn vector_moves_and_shifts() {
    let cfg = Config::new();
    let ctx = Context::new(&cfg);
    let mut computer = ARMCORTEXA::new(&ctx);
    computer.set_register(&v(2, Arrangement::D2), RegisterKind::Immediate, None, 0x0102);
    let _ = computer.execute(0, &Instruction::new("mov v1.16b, v2.16b".to_string()));
    assert_eq!(computer.get_simd_register(&v(1, Arrangement::B16)), computer.get_simd_register(&v(2, Arrangement::B16)));
    assert_eq!(computer.simd_registers[1].offset[14], 1);
    assert_eq!(computer.simd_registers[1].offset[15], 2);
    let _ = computer.execute(0, &Instruction::new("shl v3.2d, v1.2d, #8".to_string()));
    let shifted = &computer.simd_registers[3];
    assert_eq!(shifted.offset[13], 1);
    assert_eq!(shifted.offset[14], 2);
    assert_eq!(shifted.offset[15], 0);
    assert_eq!(shifted.offset[7], 0);
    let _ = computer.execute(0, &Instruction::new("eor v4.16b, v1.16b, v3.16b".to_string()));
    let xored = &computer.simd_registers[4];
    assert_eq!(xored.offset[13], 1);
    assert_eq!(xored.offset[14], 3);
    assert_eq!(xored.offset[15], 2);
    assert_eq!(xored.offset[0], 0);
}

#[test]
fn vector_eor_writes_its_destination() {
    let cfg = Config::new();
    let ctx = Context::new(&cfg);
    let mut computer = ARMCORTEXA::new(&ctx);
    computer.simd_registers[31].offset = [0xFF; 16];
    let others: Vec<_> = (0..32).filter(|&i| i != 1).map(|i| computer.simd_registers[i].offset).collect();
    let i = Instruction::new("eor v1.16b, v1.16b, v31.16b".to_string());
    computer.vector_arithmetic("^", |x, y| x ^ y, |x, y| x ^ y, |x, y| x ^ y, |x, y| x ^ y, &i);
    assert_eq!(computer.simd_registers[1].offset, [0xFF; 16]);
    let after: Vec<_> = (0..32).filter(|&i| i != 1).map(|i| computer.simd_registers[i].offset).collect();
    assert_eq!(others, after);
}

#[test]
fn vector_lanes_wrap_in_their_width() {
    let cfg = Config::new();
    let ctx = Context::new(&cfg);
    let mut computer = ARMCORTEXA::new(&ctx);
    computer.simd_registers[1].offset = [0xFF; 16];
    computer.simd_registers[2].offset[15] = 1;
    computer.simd_registers[2].offset[7] = 1;
    // halfwords: 0xFFFF + 1 wraps to 0 in the last lane only
    assert_eq!(computer.execute(0, &Instruction::new("add v3.8h, v1.8h, v2.8h".to_string())), Ok(ExecuteReturnType::Next));
    assert_eq!(computer.simd_registers[3].offset[14], 0);
    assert_eq!(computer.simd_registers[3].offset[15], 0);
    assert_eq!(computer.simd_registers[3].offset[13], 0xFF);
    // doublewords: both lanes wrap to zero
    let _ = computer.execute(0, &Instruction::new("add v4.2d, v1.2d, v2.2d".to_string()));
    assert_eq!(computer.simd_registers[4].offset, [0; 16]);
    // 8b writes the first eight bytes only
    computer.simd_registers[5].offset = [7; 16];
    let _ = computer.execute(0, &Instruction::new("sub v5.8b, v2.8b, v1.8b".to_string()));
    assert_eq!(computer.simd_registers[5].offset[0], 1);
    assert_eq!(computer.simd_registers[5].offset[7], 2);
    assert_eq!(computer.simd_registers[5].offset[8], 7);
}

#[test]
fn vector_loads_and_stores_check_their_region() {
    let cfg = Config::new();
    let ctx = Context::new(&cfg);
    let mut computer = ARMCORTEXA::new(&ctx);
    computer.add_memory_region("block".to_string(), RegionType::RW, AbstractExpression::Immediate(32));
    computer.set_abstract("x0".to_string(), abs("block"));
    assert_eq!(
        computer.execute(0, &Instruction::new("ld1 {v0.16b}, [x0], #16".to_string())),
        Ok(ExecuteReturnType::Next)
    );
    // post-indexing moved the pointer on
    assert_eq!(
        computer.get_register(&x(0)),
        RegisterValue::new(RegisterKind::RegisterBase, Some(abs("block")), 16)
    );
    assert_eq!(
        computer.execute(0, &Instruction::new("st1 {v0.16b}, [x0], #16".to_string())),
        Ok(ExecuteReturnType::Next)
    );
    assert_eq!(computer.read_rw_queue().len(), 2);
    assert_eq!(computer.read_rw_queue()[1].kind, RegionType::WRITE);
    assert_eq!(computer.read_rw_queue()[1].offset, 16);
    computer.set_register(&x(0), RegisterKind::RegisterBase, Some(abs("block")), 4096);
    assert_eq!(
        computer.execute(0, &Instruction::new("ld1 {v0.16b, v1.16b}, [x0], #32".to_string())),
        Err("Accessing address outside allowable memory regions Abstract(\"block\"), 4096".to_string())
    );
}

#[test]
fn state_snapshot_reports_registers_and_flags() {
    let cfg = Config::new();
    let ctx = Context::new(&cfg);
    let mut computer = ARMCORTEXA::new(&ctx);
    computer.set_register(&x(3), RegisterKind::Immediate, None, 9);
    let (regs, zero, neg, carry, overflow) = computer.get_state();
    assert_eq!(regs.len(), 33);
    assert_eq!(regs[3].offset, 9);
    assert!(zero.is_none() && neg.is_none() && carry.is_none() && overflow.is_none());
}

#[test]
fn stack_elements_are_stored_in_the_stack_region() {
    let cfg = Config::new();
    let ctx = Context::new(&cfg);
    let mut computer = ARMCORTEXA::new(&ctx);
    computer.set_stack_element(16, Some(abs("input")), 8);
    let v = computer.memory[0].1.get(16).unwrap();
    assert_eq!(v.kind, RegisterKind::RegisterBase);
    assert_eq!(v.base, Some(abs("input")));
    assert_eq!(v.offset, 8);
}

#[test]
fn abstract_memory_values_make_their_region() {
    let cfg = Config::new();
    let ctx = Context::new(&cfg);
    let mut computer = ARMCORTEXA::new(&ctx);
    let before = computer.memory.len();
    computer.add_memory_value_abstract("table".to_string(), 4, abs("k"));
    assert_eq!(computer.memory.len(), before + 1);
    assert_eq!(computer.memory[before].0, "table");
    let v = computer.memory[before].1.get(4).unwrap();
    assert_eq!(v.base, Some(abs("k")));
    assert_eq!(v.offset, 0);
}

#[test]
fn alignment_can_be_changed() {
    let cfg = Config::new();
    let ctx = Context::new(&cfg);
    let mut computer = ARMCORTEXA::new(&ctx);
    assert_eq!(computer.get_alignment(), 4);
    computer.change_alignment(8);
    assert_eq!(computer.get_alignment(), 8);
}

#[test]
fn the_bounds_check_measures_regions_in_bytes() {
    let cfg = Config::new();
    let ctx = Context::new(&cfg);
    let mut computer = ARMCORTEXA::new(&ctx);
    computer.add_memory_region("buf".to_string(), RegionType::READ, AbstractExpression::Immediate(8));
    assert_eq!(computer.mem_safe_access(abs("buf"), 0, RegionType::READ).is_ok(), true);
    assert_eq!(computer.mem_safe_access(abs("buf"), 4, RegionType::READ).is_ok(), true);
    assert!(computer.mem_safe_access(abs("buf"), 7, RegionType::READ).is_ok());
    assert!(computer.mem_safe_access(abs("buf"), 8, RegionType::READ).is_err());
    assert!(computer.mem_safe_access(abs("buf"), 9, RegionType::READ).is_err());
    assert!(computer.mem_safe_access(abs("buf"), -4, RegionType::READ).is_err());
    assert_eq!(
        computer.mem_safe_access(abs("buf"), 0, RegionType::WRITE).unwrap_err().to_string(),
        "Access does not match region type READ WRITE Abstract(\"buf\")"
    );
    assert_eq!(
        computer.mem_safe_access(abs("buf"), 12, RegionType::READ).unwrap_err().to_string(),
        "Accessing address outside allowable memory regions Abstract(\"buf\"), 12"
    );
    computer.add_memory_region("empty".to_string(), RegionType::READ, AbstractExpression::Immediate(0));
    assert!(computer.mem_safe_access(abs("empty"), 0, RegionType::READ).is_err());
}

#[test]
fn the_verdict_allows_only_when_both_ways_out_are_ruled_out() {
    let b = abs("base");
    assert!(access_verdict(Unsat, Unsat, &b, 16).is_ok());
    assert_eq!(
        access_verdict(Sat, Unsat, &b, 16).unwrap_err().to_string(),
        "Accessing address outside allowable memory regions Abstract(\"base\"), 16"
    );
    assert!(access_verdict(Unsat, Unknown, &b, 0).is_err());
    assert!(access_verdict(Unknown, Unsat, &b, 0).is_err());
}

#[test]
fn compare_sets_carry_when_nothing_is_borrowed() {
    let cfg = Config::new();
    let ctx = Context::new(&cfg);
    let mut c = ARMCORTEXA::new(&ctx);
    c.set_register(&x(0), RegisterKind::Immediate, None, 5);
    c.set_register(&x(1), RegisterKind::Immediate, None, 3);
    c.cmp(&x(0), &x(1));
    let (_, z, n, cf, _) = c.get_state();
    assert_eq!(z, Some(FlagValue::Real(false)));
    assert_eq!(n, Some(FlagValue::Real(false)));
    assert_eq!(cf, Some(FlagValue::Real(true)));
    c.cmp(&x(1), &x(0));
    assert_eq!(c.carry, Some(FlagValue::Real(false)));
    c.set_register(&x(2), RegisterKind::Immediate, None, -1);
    c.cmp(&x(2), &x(1));
    assert_eq!(c.carry, Some(FlagValue::Real(true)));
    c.cmp(&x(1), &x(1));
    assert_eq!(c.carry, Some(FlagValue::Real(true)));
    assert_eq!(c.zero, Some(FlagValue::Real(true)));
}

#[test]
fn add_changes_only_its_destination() {
    let cfg = Config::new();
    let ctx = Context::new(&cfg);
    let mut computer = ARMCORTEXA::new(&ctx);
    computer.set_register(&x(1), RegisterKind::Immediate, None, 40);
    computer.set_register(&x(2), RegisterKind::Immediate, None, 2);
    computer.set_register(&x(7), RegisterKind::Immediate, None, 9);
    let before = computer.get_state();
    assert_eq!(computer.execute(0, &Instruction::new("add x3,x1,x2".to_string())), Ok(ExecuteReturnType::Next));
    let after = computer.get_state();
    for k in 0..before.0.len() {
        if k != 3 {
            assert_eq!(before.0[k], after.0[k]);
        }
    }
    assert_eq!(after.0[3].offset, 42);
    assert_eq!((before.1, before.2, before.3, before.4), (after.1, after.2, after.3, after.4));
    assert!(computer.read_rw_queue().is_empty());
}

#[test]
fn rev64_reverses_into_its_destination() {
    let cfg = Config::new();
    let ctx = Context::new(&cfg);
    let mut computer = ARMCORTEXA::new(&ctx);
    let bytes: [u8; 16] = [0, 1, 2, 3, 4, 5, 6, 7, 8, 9, 10, 11, 12, 13, 14, 15];
    computer.simd_registers[2].offset = bytes;
    assert_eq!(computer.execute(0, &Instruction::new("rev64 v1.16b, v2.16b".to_string())), Ok(ExecuteReturnType::Next));
    assert_eq!(computer.simd_registers[1].offset, [15, 14, 13, 12, 11, 10, 9, 8, 7, 6, 5, 4, 3, 2, 1, 0]);
    let _ = computer.execute(0, &Instruction::new("rev64 v3.8h, v2.8h".to_string()));
    assert_eq!(computer.simd_registers[3].offset, [14, 15, 12, 13, 10, 11, 8, 9, 6, 7, 4, 5, 2, 3, 0, 1]);
    assert_eq!(computer.simd_registers[2].offset, bytes);
}

#[test]
fn stack_push_and_pop_through_the_stack_pointer() {
    let cfg = Config::new();
    let ctx = Context::new(&cfg);
    let mut computer = ARMCORTEXA::new(&ctx);
    computer.set_immediate("x3".to_string(), 1);
    for line in ["add x3,x3,#21", "str x3,[sp,#4]", "ldr x0,[sp,#4]"] {
        assert_eq!(computer.execute(0, &Instruction::new(line.to_string())), Ok(ExecuteReturnType::Next));
    }
    let x0 = computer.get_register(&x(0));
    assert_eq!(x0.base, None);
    assert_eq!(x0.offset, 22);
    assert!(computer.check_stack_pointer_restored());
}
