use bums::instruction_parser::{
    register_to_tuple, string_to_int, Arrangement, Instruction, InstructionType, Operand, RePrefix,
};

#[test]
fn test_parse_add_register() {
    let good_result = Instruction {
        ty: InstructionType::Arithmetic,
        opcode: String::from("add"),
        operands: Vec::from([
            Operand::Register(RePrefix::X, 0),
            Operand::Register(RePrefix::X, 0),
            Operand::Register(RePrefix::X, 1),
        ]),
    };

    // test multiple variations of spacing around commas
    assert_eq!(Instruction::new("add x0,x0,x1".to_string()), good_result,);
    assert_eq!(
        Instruction::new("add x0 , x0 , x1".to_string()),
        good_result,
    );
    assert_eq!(
        Instruction::new(" add x0 , x0 , x1".to_string()),
        good_result,
    );
}

#[test]
fn test_parse_add_immediate() {
    let good_result = Instruction {
        ty: InstructionType::Arithmetic,
        opcode: String::from("add"),
        operands: Vec::from([
            Operand::Register(RePrefix::X, 0),
            Operand::Register(RePrefix::X, 0),
            Operand::Immediate(4),
        ]),
    };

    assert_eq!(Instruction::new("add x0,x0,#4".to_string()), good_result);
}

#[test]
fn test_parse_add_shifted_immediate() {
    let good_result = Instruction {
        ty: InstructionType::Arithmetic,
        opcode: String::from("add"),
        operands: Vec::from([
            Operand::Register(RePrefix::X, 0),
            Operand::Register(RePrefix::X, 0),
            Operand::Immediate(2),
            Operand::Bitwise(String::from("lsl"), 12),
        ]),
    };

    assert_eq!(
        Instruction::new("add x0,x0,#2,lsl#12".to_string()),
        good_result
    );
}

#[test]
fn test_parse_add_shifted_immediate_with_space() {
    let good_result = Instruction {
        ty: InstructionType::Arithmetic,
        opcode: String::from("add"),
        operands: Vec::from([
            Operand::Register(RePrefix::X, 0),
            Operand::Register(RePrefix::X, 0),
            Operand::Register(RePrefix::X, 1),
            Operand::Bitwise(String::from("lsl"), 12),
        ]),
    };

    assert_eq!(
        Instruction::new("add x0,x0,x1,lsl #12".to_string()),
        good_result
    );
}

#[test]
fn test_parse_add_address() {
    let good_result = Instruction {
        ty: InstructionType::Other,
        opcode: String::from("add"),
        operands: Vec::from([
            Operand::Register(RePrefix::X, 30),
            Operand::Register(RePrefix::X, 30),
            Operand::Address(String::from("LK256@PAGEOFF"), 0),
        ]),
    };
    assert_eq!(
        Instruction::new("add	x30,x30,LK256@PAGEOFF".to_string()),
        good_result
    );
}

#[test]
fn test_parse_str() {
    let good_result = Instruction {
        ty: InstructionType::Memory,
        opcode: String::from("str"),
        operands: Vec::from([
            Operand::Register(RePrefix::X, 0),
            Operand::Memory(RePrefix::X, 29, None, None, None),
        ]),
    };
    assert_eq!(Instruction::new("str x0,[x29]".to_string()), good_result);
}

#[test]
fn test_parse_str_immediate() {
    let good_result = Instruction {
        ty: InstructionType::Memory,
        opcode: String::from("str"),
        operands: Vec::from([
            Operand::Register(RePrefix::X, 0),
            Operand::Memory(RePrefix::X, 29, Some(112), None, None),
        ]),
    };
    assert_eq!(
        Instruction::new("str x0,[x29,#112]".to_string()),
        good_result
    );
}

#[test]
fn test_parse_stp_register_address() {
    let good_result = Instruction {
        ty: InstructionType::Memory,
        opcode: String::from("stp"),
        operands: Vec::from([
            Operand::Register(RePrefix::X, 20),
            Operand::Register(RePrefix::X, 21),
            Operand::Memory(RePrefix::X, 0, None, None, None),
        ]),
    };
    assert_eq!(
        Instruction::new("stp x20,x21,[x0]".to_string()),
        good_result
    );
}

#[test]
fn test_parse_stp_signed_offset() {
    let good_result = Instruction {
        ty: InstructionType::Memory,
        opcode: String::from("stp"),
        operands: Vec::from([
            Operand::Register(RePrefix::X, 22),
            Operand::Register(RePrefix::X, 23),
            Operand::Memory(RePrefix::X, 0, Some(8), None, None),
        ]),
    };
    assert_eq!(
        Instruction::new("stp x22,x23,[x0,#8]".to_string()),
        good_result
    );
}

#[test]
fn test_parse_stp_signed_offset_arithmetic() {
    let good_result = Instruction {
        ty: InstructionType::Memory,
        opcode: String::from("stp"),
        operands: Vec::from([
            Operand::Register(RePrefix::X, 22),
            Operand::Register(RePrefix::X, 23),
            Operand::Memory(RePrefix::X, 0, Some(8), None, None),
        ]),
    };
    assert_eq!(
        Instruction::new("stp x22,x23,[x0,#2*4]".to_string()),
        good_result
    );
}

#[test]
fn test_parse_stp_post_index() {
    let good_result = Instruction {
        ty: InstructionType::Memory,
        opcode: String::from("stp"),
        operands: Vec::from([
            Operand::Register(RePrefix::X, 22),
            Operand::Register(RePrefix::X, 23),
            Operand::Memory(RePrefix::X, 0, Some(8), None, Some(true)),
        ]),
    };
    assert_eq!(
        Instruction::new("stp x22,x23,[x0],#8".to_string()),
        good_result
    );
}

#[test]
fn test_parse_stp_post_index_arithmetic() {
    let good_result = Instruction {
        ty: InstructionType::Memory,
        opcode: String::from("stp"),
        operands: Vec::from([
            Operand::Register(RePrefix::X, 22),
            Operand::Register(RePrefix::X, 23),
            Operand::Memory(RePrefix::X, 0, Some(8), None, Some(true)),
        ]),
    };
    assert_eq!(
        Instruction::new("stp x22,x23,[x0],#2*4".to_string()),
        good_result
    );
}

#[test]
fn test_parse_stp_pre_index() {
    let good_result = Instruction {
        opcode: String::from("stp"),
        ty: InstructionType::Memory,
        operands: Vec::from([
            Operand::Register(RePrefix::X, 29),
            Operand::Register(RePrefix::X, 30),
            Operand::Memory(RePrefix::X, 0, Some(-128), None, Some(false)),
        ]),
    };
    assert_eq!(
        Instruction::new("stp x29,x30,[x0,#-128]!".to_string()),
        good_result
    );
}



#[test]
fn test_parse_cmp_register_immediate() {
    let good_result = Instruction {
        ty: InstructionType::Other,
        opcode: String::from("cmp"),
        operands: Vec::from([Operand::Register(RePrefix::X, 0), Operand::Immediate(2)]),
    };
    assert_eq!(Instruction::new("cmp x0,#2".to_string()), good_result);
}

#[test]
fn test_parse_cmp_register() {
    let good_result = Instruction {
        ty: InstructionType::Other,
        opcode: String::from("cmp"),
        operands: Vec::from([
            Operand::Register(RePrefix::X, 0),
            Operand::Register(RePrefix::X, 1),
        ]),
    };
    assert_eq!(Instruction::new("cmp x0,x1".to_string()), good_result);
}

#[test]
fn test_parse_cmp_shifted_register() {
    let good_result = Instruction {
        ty: InstructionType::Arithmetic,
        opcode: String::from("cmp"),
        operands: Vec::from([
            Operand::Register(RePrefix::X, 0),
            Operand::Register(RePrefix::X, 1),
            Operand::Bitwise(String::from("lsr"), 2),
        ]),
    };
    assert_eq!(Instruction::new("cmp x0,x1,lsr#2".to_string()), good_result);
}

#[test]
fn test_parse_adrp() {
    let good_result = Instruction {
        ty: InstructionType::Other,
        opcode: String::from("adrp"),
        operands: Vec::from([
            Operand::Register(RePrefix::X, 30),
            Operand::Address(String::from("LK256@PAGE"), 0),
        ]),
    };
    assert_eq!(
        Instruction::new("adrp x30,LK256@PAGE".to_string()),
        good_result
    );
}

#[test]
fn test_parse_b_condition_bne() {
    let good_result = Instruction {
        ty: InstructionType::ControlFlow,
        opcode: String::from("b.ne"),
        operands: Vec::from([Operand::Label(String::from("Loop"))]),
    };
    assert_eq!(Instruction::new("b.ne Loop".to_string()), good_result);
}

#[test]
fn test_parse_b() {
    let good_result = Instruction {
        ty: InstructionType::ControlFlow,
        opcode: String::from("b"),
        operands: Vec::from([Operand::Label(String::from("Loop"))]),
    };
    assert_eq!(Instruction::new("b Loop".to_string()), good_result);
}

#[test]
fn test_parse_cbnz() {
    let good_result = Instruction {
        ty: InstructionType::ControlFlow,
        opcode: String::from("cbnz"),
        operands: Vec::from([
            Operand::Register(RePrefix::W, 19),
            Operand::Label(String::from("Loop_16_xx")),
        ]),
    };
    assert_eq!(
        Instruction::new("cbnz w19,Loop_16_xx".to_string()),
        good_result
    );
}

#[test]
fn test_parse_ret() {
    let good_result = Instruction {
        ty: InstructionType::Other,
        opcode: String::from("ret"),
        operands: Vec::new(),
    };
    assert_eq!(Instruction::new("ret".to_string()), good_result);
}

#[test]
fn test_parse_simd_ld1() {
    let good_result = Instruction {
        ty: InstructionType::SIMDManagement,
        opcode: String::from("ld1"),
        operands: Vec::from([
            Operand::Vector(RePrefix::V, 0, Arrangement::B16),
            Operand::Memory(RePrefix::X, 16, None, None, None),
        ]),
    };
    assert_eq!(
        Instruction::new("ld1 { v0.16b }, [x16]".to_string()),
        good_result
    );
}

#[test]
fn test_parse_simd_st1() {
    let good_result = Instruction {
        ty: InstructionType::SIMDManagement,
        opcode: String::from("st1"),
        operands: Vec::from([
            Operand::Vector(RePrefix::V, 5, Arrangement::H8),
            Operand::Memory(RePrefix::X, 0, None, None, None),
        ]),
    };
    assert_eq!(
        Instruction::new("st1 { v5.8h }, [x0]".to_string()),
        good_result
    );
}

#[test]
fn test_parse_simd_movi() {
    let good_result = Instruction {
        ty: InstructionType::SIMDArithmetic,
        opcode: String::from("movi"),
        operands: Vec::from([
            Operand::Vector(RePrefix::V, 19, Arrangement::B16),
            Operand::Immediate(0xe1),
        ]),
    };
    assert_eq!(
        Instruction::new("movi v19.16b, #0xe1".to_string()),
        good_result
    );
}

#[test]
fn test_parse_simd_aese() {
    let good_result = Instruction {
        ty: InstructionType::SIMDArithmetic,
        opcode: String::from("aese"),
        operands: Vec::from([
            Operand::Vector(RePrefix::V, 0, Arrangement::B16),
            Operand::Vector(RePrefix::V, 18, Arrangement::B16),
        ]),
    };
    assert_eq!(
        Instruction::new("aese v0.16b, v18.16b".to_string()),
        good_result
    );
}

#[test]
fn test_parse_simd_fmov() {
    let good_result = Instruction {
        ty: InstructionType::SIMDManagement,
        opcode: String::from("fmov"),
        operands: Vec::from([
            Operand::VectorAccess(RePrefix::V, 1, Arrangement::D, 1),
            Operand::Register(RePrefix::X, 9),
        ]),
    };
    assert_eq!(
        Instruction::new("fmov v1.d[1], x9".to_string()),
        good_result
    );
}

#[test]
fn test_parse_simd_ext() {
    let good_result = Instruction {
        ty: InstructionType::SIMDArithmetic,
        opcode: String::from("ext"),
        operands: Vec::from([
            Operand::Vector(RePrefix::V, 14, Arrangement::B16),
            Operand::Vector(RePrefix::V, 14, Arrangement::B16),
            Operand::Vector(RePrefix::V, 14, Arrangement::B16),
            Operand::Immediate(8),
        ]),
    };
    assert_eq!(
        Instruction::new("ext v14.16b, v14.16b, v14.16b, #8".to_string()),
        good_result
    );
}

#[test]
fn test_parse_simd_arithmetic() {
    let good_result = Instruction {
        ty: InstructionType::SIMDArithmetic,
        opcode: String::from("eor"),
        operands: Vec::from([
            Operand::Vector(RePrefix::V, 1, Arrangement::B16),
            Operand::Vector(RePrefix::V, 1, Arrangement::B16),
            Operand::Vector(RePrefix::V, 31, Arrangement::B16),
        ]),
    };
    assert_eq!(
        Instruction::new("eor v1.16b, v1.16b, v31.16b".to_string()),
        good_result
    );
}

// this is what the SIMD used in rav1d looks like, may change with different decompilation pipeline
#[test]
fn test_parse_simd_st1_8h() {
    let good_result = Instruction {
        ty: InstructionType::SIMDManagement,
        opcode: String::from("st1.8h"),
        operands: Vec::from([
            Operand::VectorRegister(RePrefix::V, 30),
            Operand::VectorRegister(RePrefix::V, 31),
            Operand::Memory(RePrefix::X, 0, Some(32), None, Some(true)),
        ]),
    };
    assert_eq!(
        Instruction::new("st1.8h { v30, v31 }, [x0], #32".to_string()),
        good_result
    );
}
#[test]
fn test_parse_simd_ushll() {
    let good_result = Instruction {
        ty: InstructionType::SIMDArithmetic,
        opcode: String::from("ushll.8h"),
        operands: Vec::from([
            Operand::VectorRegister(RePrefix::V, 2),
            Operand::VectorRegister(RePrefix::V, 2),
            Operand::Immediate(0),
        ]),
    };
    assert_eq!(
        Instruction::new("ushll.8h v2, v2, #0".to_string()),
        good_result
    );
}

#[test]
fn test_parse_label() {
    let good_result = Instruction {
        ty: InstructionType::Label,
        opcode: String::from("Loop:"),
        operands: Vec::new(),
    };
    assert_eq!(Instruction::new("Loop:".to_string()), good_result);
}

#[test]
fn test_parse_cset_with_condition() {
    let good_result = Instruction {
        ty: InstructionType::Other,
        opcode: String::from("cset"),
        operands: Vec::from([
            Operand::Register(RePrefix::W, 0),
            Operand::Label("eq".to_string()),
        ]),
    };
    assert_eq!(Instruction::new("cset w0, eq".to_string()), good_result);
}

#[test]
fn string_to_int_plain_and_hex() {
    assert_eq!(string_to_int("#112"), 112);
    assert_eq!(string_to_int("-128"), -128);
    assert_eq!(string_to_int("#0xe1"), 0xe1);
    assert_eq!(string_to_int("(16)"), 16);
}

#[test]
fn string_to_int_products_and_sums() {
    assert_eq!(string_to_int("2*4"), 8);
    assert_eq!(string_to_int("#2*4*3"), 24);
    // a sum starts from one, as the parser has always counted
    assert_eq!(string_to_int("2+3"), 6);
}

#[test]
fn arrangement_names() {
    assert_eq!(Arrangement::from_string("16b"), Arrangement::B16);
    assert_eq!(Arrangement::from_string("8h"), Arrangement::H8);
    assert_eq!(Arrangement::from_string("2d"), Arrangement::D2);
    assert_eq!(Arrangement::from_string("d"), Arrangement::D);
}

#[test]
fn register_tuples() {
    assert_eq!(register_to_tuple(&Operand::Register(RePrefix::X, 3)), (RePrefix::X, 3));
    assert_eq!(register_to_tuple(&Operand::VectorRegister(RePrefix::V, 7)), (RePrefix::V, 7));
    assert_eq!(
        register_to_tuple(&Operand::Memory(RePrefix::X, 29, Some(8), None, None)),
        (RePrefix::X, 29)
    );
}

#[test]
fn simd_and_label_queries() {
    let simd = Instruction::new("eor v1.16b, v1.16b, v31.16b".to_string());
    assert!(simd.is_simd());
    assert!(!simd.is_label());
    let label = Instruction::new("Loop:".to_string());
    assert!(label.is_label());
    assert!(!label.is_simd());
    let scalar = Instruction::new("add x0,x0,x1".to_string());
    assert!(!scalar.is_simd());
}

#[test]
fn extra_separators_do_not_change_a_parse() {
    let a = Instruction::new("ldr x3,[x0,#16]".to_string());
    let b = Instruction::new("  ldr\tx3 ,  [x0, #16]".to_string());
    assert_eq!(a, b);
    assert_eq!(a.ty, InstructionType::Memory);
}

#[test]
fn try_new_refuses_what_cannot_be_parsed() {
    assert!(Instruction::try_new("").is_none());
    assert!(Instruction::try_new("add x0, x1, #2").is_some());
}

#[test]
fn parse_stack_pointer_memory_operand() {
    let expected = Instruction {
        ty: InstructionType::Memory,
        opcode: String::from("str"),
        operands: Vec::from([
            Operand::Register(RePrefix::X, 3),
            Operand::Memory(RePrefix::Sp, 0, Some(4), None, None),
        ]),
    };
    assert_eq!(Instruction::new("str x3,[sp,#4]".to_string()), expected);
    let post = Instruction::new("ldr x0,[sp],#16".to_string());
    assert_eq!(post.operands[1], Operand::Memory(RePrefix::Sp, 0, Some(16), None, Some(true)));
}
