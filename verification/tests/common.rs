use bums::common::{expression_debug_text, register_debug_text};
use z3::{Config, Context, SatResult, Solver};
use bums::common::{comparison_to_ast, expression_to_ast,
    generate_comparison, generate_expression, generate_expression_from_options,
    get_register_name_string, shift_imm, AbstractComparison, AbstractExpression, FlagValue,
    MemorySafeRegion, MemorySafetyError, RegionType, RegisterKind, RegisterValue, SimdRegister,
};

fn abs(name: &str) -> AbstractExpression {
    AbstractExpression::Abstract(name.to_string())
}

#[test]
fn expressions_collect_their_names() {
    let e = generate_expression("+", abs("base"), generate_expression("*", abs("len"), AbstractExpression::Immediate(4)));
    assert_eq!(e.get_abstracts(), vec!["base".to_string(), "len".to_string()]);
    assert!(e.contains("le"));
    assert!(!e.contains("zzz"));
    let inner = generate_expression("*", abs("len"), AbstractExpression::Immediate(4));
    assert!(e.contains_expression(&inner));
    assert!(!e.contains_expression(&abs("other")));
}

#[test]
fn missing_sides_read_as_zero() {
    let e = generate_expression_from_options(",", Some(abs("a")), None);
    assert_eq!(e, Some(generate_expression(",", abs("a"), AbstractExpression::Immediate(0))));
    assert_eq!(generate_expression_from_options(",", None, None), None);
}

#[test]
fn comparisons_negate() {
    let c = generate_comparison("<", abs("x"), AbstractExpression::Immediate(3));
    let n = c.not();
    assert_eq!(n, AbstractComparison::new(">=", abs("x"), AbstractExpression::Immediate(3)));
    assert_eq!(n.not(), c);
    assert_eq!(c.get_abstracts(), vec!["x".to_string()]);
    assert!(c.contains("x"));
}

#[test]
fn flags_become_comparisons() {
    let t = FlagValue::Real(true).to_abstract_expression();
    assert_eq!(t, generate_comparison("==", AbstractExpression::Empty, AbstractExpression::Empty));
    assert_eq!(FlagValue::Real(true).not(), FlagValue::Real(false));
    let f = FlagValue::Abstract(generate_comparison("==", abs("a"), abs("b"))).not();
    assert_eq!(f, FlagValue::Abstract(generate_comparison("!=", abs("a"), abs("b"))));
}

#[test]
fn shifts_of_registers() {
    let r = RegisterValue::new_empty("sp");
    let s = shift_imm("lsl".to_string(), r, 3);
    assert_eq!(s.offset, 0);
    assert_eq!(s.base, Some(generate_expression("lsl", abs("sp"), AbstractExpression::Immediate(3))));
    let imm = RegisterValue::new(RegisterKind::Immediate, None, 5);
    let s = shift_imm("lsl".to_string(), imm, 2);
    assert_eq!(s.offset, 20);
    let imm = RegisterValue::new(RegisterKind::Immediate, None, 40);
    let s = shift_imm("ror".to_string(), imm, 3);
    assert_eq!(s.offset, 5);
    let imm = RegisterValue::new(RegisterKind::Immediate, None, 40);
    let s = shift_imm("".to_string(), imm, 2);
    assert_eq!(s.offset, 42);
    assert_eq!(s.base, None);
}

#[test]
fn register_names_drop_brackets_and_offsets() {
    assert_eq!(get_register_name_string("[x29,#16]".to_string()), "x29");
    assert_eq!(get_register_name_string("x3".to_string()), "x3");
}

#[test]
fn regions_know_their_words() {
    let mut region = MemorySafeRegion::new(AbstractExpression::Immediate(3), RegionType::READ);
    assert_eq!(region.content.len(), 3);
    assert!(region.content.contains_key(&8));
    assert_eq!(region.get(4).unwrap().kind, RegisterKind::Number);
    region.insert(12, RegisterValue::new(RegisterKind::Immediate, None, 9));
    assert_eq!(region.get(12).unwrap().offset, 9);
    assert_eq!(region.get(100).unwrap().kind, RegisterKind::Number);
    assert_eq!(region.get_length(), AbstractExpression::Immediate(3));
    let open = MemorySafeRegion::new(abs("len"), RegionType::RW);
    assert_eq!(open.get_length(), abs("len"));
    assert_eq!(RegionType::RW.to_string(), "Read and Write");
}

#[test]
fn errors_keep_their_message() {
    assert_eq!(MemorySafetyError::new("out of bounds").to_string(), "out of bounds");
}

#[test]
fn simd_lanes_read_back_what_was_written() {
    let mut v = SimdRegister::new("v0");
    v.set_byte(3, Some(abs("b")), 7);
    let (b, o) = v.get_byte(3);
    assert_eq!(b, Some(abs("b")));
    assert_eq!(o, 7);
    v.set_word(1, [None, None, None, Some(abs("w"))], [1, 2, 3, 4]);
    let (wb, wo) = v.get_word(1);
    assert_eq!(wo, [1, 2, 3, 4]);
    assert_eq!(wb[3], Some(abs("w")));
    let (hb, ho) = v.get_halfword(2);
    assert_eq!(ho, [1, 2]);
    assert_eq!(hb[0], None);
    v.set_double(1, [None, None, None, None, None, None, None, None], [9; 8]);
    assert_eq!(v.get_double(1).1, [9; 8]);
}

#[test]
fn simd_register_as_one_value() {
    let mut v = SimdRegister::new("v1");
    v.set_register("4s".to_string(), RegisterKind::Immediate, None, 0x0102030405060708_090a0b0c0d0e0f10);
    let r = v.get_as_register();
    assert_eq!(r.offset, 0x0102030405060708);
    assert_eq!(r.base, None);
    assert_eq!(r.kind, RegisterKind::Immediate);
    v.set_register("4s".to_string(), RegisterKind::RegisterBase, Some(abs("k")), 0);
    let (b, _) = v.get_byte(12);
    assert_eq!(b, Some(generate_expression("&", abs("4s12"), abs("k"))));
    assert!(v.get_as_register().base.is_some());
}

#[test]
fn expression_texts() {
    let e = generate_expression("+", abs("base"), AbstractExpression::Immediate(-12));
    assert_eq!(e.to_string(), "(base + -12)");
    let r = AbstractExpression::Register(Box::new(RegisterValue::new(RegisterKind::Immediate, None, 5)));
    assert_eq!(r.to_string(), "(RegisterValue { kind: Immediate, base: None, offset: 5 })");
    assert_eq!(AbstractExpression::Empty.to_string(), "Empty");
    assert_eq!(AbstractExpression::Immediate(i64::MIN).to_string(), "-9223372036854775808");
}

#[test]
fn solver_terms_of_expressions() {
    let cfg = Config::new();
    let ctx = Context::new(&cfg);
    let sum = generate_expression("+", abs("n"), AbstractExpression::Immediate(3));
    let term = expression_to_ast(&ctx, sum).unwrap();
    assert_eq!(term.to_string(), "(+ n 3)");
    let solver = Solver::new(&ctx);
    // n + 3 < 0 and n >= 0 cannot both hold
    let below = comparison_to_ast(
        &ctx,
        generate_comparison(
            "<",
            generate_expression("+", abs("n"), AbstractExpression::Immediate(3)),
            AbstractExpression::Immediate(0),
        ),
    )
    .unwrap();
    let nonneg = comparison_to_ast(&ctx, generate_comparison(">=", abs("n"), AbstractExpression::Immediate(0))).unwrap();
    solver.assert(&nonneg);
    assert_eq!(solver.check_assumptions(&[below]), SatResult::Unsat);
    let equal = comparison_to_ast(&ctx, generate_comparison("==", abs("n"), AbstractExpression::Immediate(7))).unwrap();
    assert_eq!(solver.check_assumptions(&[equal]), SatResult::Sat);
}

#[test]
fn simd_halfword_lanes_are_set_and_read_back() {
    let mut reg = SimdRegister::new("v0");
    reg.set_halfword(3, [None, Some(AbstractExpression::Abstract("k".to_string()))], [0x12, 0x34]);
    let (base, offset) = reg.get_halfword(3);
    assert_eq!(offset, [0x12, 0x34]);
    assert_eq!(base[0], None);
    assert_eq!(base[1], Some(AbstractExpression::Abstract("k".to_string())));
    assert_eq!(reg.get_byte(6), (None, 0x12));
    assert_eq!(reg.get_byte(5).1, 0);
}

#[test]
fn logical_shift_right_divides_by_powers_of_two() {
    let r = RegisterValue::new(RegisterKind::Immediate, None, 16);
    let s = shift_imm("lsr".to_string(), r, 2);
    assert_eq!(s.offset, 4);
    assert_eq!(s.kind, RegisterKind::Immediate);
    let neg = RegisterValue::new(RegisterKind::Immediate, None, -1);
    assert_eq!(shift_imm("lsr".to_string(), neg, 60).offset, 15);
    let l = RegisterValue::new(RegisterKind::Immediate, None, 16);
    assert_eq!(shift_imm("lsl".to_string(), l, 2).offset, 64);
}

#[test]
fn debug_texts_match_the_derived_debug() {
    let e = generate_expression(
        "+",
        AbstractExpression::Abstract("a\"b".to_string()),
        AbstractExpression::Register(Box::new(RegisterValue::new(
            RegisterKind::RegisterBase,
            Some(AbstractExpression::Immediate(-3)),
            7,
        ))),
    );
    assert_eq!(expression_debug_text(&e), format!("{:?}", e));
    let r = RegisterValue::new(RegisterKind::Number, None, i64::MIN);
    assert_eq!(register_debug_text(&r), format!("{:?}", r));
    let q = RegisterValue::new(RegisterKind::Immediate, Some(AbstractExpression::Empty), 0);
    assert_eq!(register_debug_text(&q), format!("{:?}", q));
}
