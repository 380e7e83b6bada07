use vm16::cpu::CPU;
use vm16::isa::{ADD_REG_REG, MOV_LIT_REG};
use vm16::parser::{
    encode_program, get_ins, parse_program, upper_or_lower_str, AsmError, EncodeError,
    ExpectedToken, Instruction, LineError, Literal, Parameter, ParameterType, Program, RegisterU8,
    Registeru16,
};

#[test]
fn test_upper_string_ok() {
    let input_text = "mov x y";
    let input_text2 = "MOV X Y";

    let output = upper_or_lower_str("mov", input_text);
    let output2 = upper_or_lower_str("mov", input_text2);

    let expected = Some((" x y", "mov"));
    let expected2 = Some((" X Y", "MOV"));
    assert_eq!(output, expected);
    assert_eq!(output2, expected2);
}

#[test]
fn test_mov_reg_reg() {
    let input = "mov 0x4f bh";

    let (r, ins) = get_ins(input).unwrap();
    assert_eq!(r, "");
    assert_eq!(ins.ins_name, "mov");
    assert_eq!(ins.param1, Parameter::Lit(0x4F));
    assert_eq!(
        ins.param2,
        Parameter::RegU8 { name: "bh".to_string(), reg_id: 3 },
    );
}

#[test]
fn mnemonics_and_registers_ignore_case() {
    let (r, ins) = get_ins("MOV 0X4F BH").unwrap();
    assert_eq!(r, "");
    assert_eq!(ins.ins_name, "MOV");
    assert_eq!(ins.param1, Parameter::Lit(0x4F));
    // the spelling is kept as written, the id comes from the canonical table
    assert_eq!(
        ins.param2,
        Parameter::RegU8 { name: "BH".to_string(), reg_id: 3 },
    );
}

#[test]
fn literal_radix_prefixes() {
    let (_, ins) = get_ins("mov 0o17 acc").unwrap();
    assert_eq!(ins.param1, Parameter::Lit(0o17));
    let (_, ins) = get_ins("mov 0x1f acc").unwrap();
    assert_eq!(ins.param1, Parameter::Lit(0x1F));
    let (_, ins) = get_ins("mov 123 acc").unwrap();
    assert_eq!(ins.param1, Parameter::Lit(123));
    assert_eq!(
        ins.param2,
        Parameter::RegU16 { name: "acc".to_string(), reg_id: 16 },
    );
}

#[test]
fn literal_overflow_is_an_error_not_a_panic() {
    assert_eq!(get_ins("mov 0x10000 acc"), Err(LineError::LiteralOverflow));
    assert_eq!(get_ins("mov 99999 acc"), Err(LineError::LiteralOverflow));
    assert_eq!(
        parse_program("mov 99999 acc"),
        Err(AsmError::LiteralOverflow { line: 1 }),
    );
    // just inside the range still parses
    let (_, ins) = get_ins("mov 0xffff acc").unwrap();
    assert_eq!(ins.param1, Parameter::Lit(0xFFFF));
    let (_, ins) = get_ins("mov 65535 acc").unwrap();
    assert_eq!(ins.param1, Parameter::Lit(65535));
}

#[test]
fn missing_second_operand_is_a_syntax_error() {
    assert_eq!(
        get_ins("mov 0x4f"),
        Err(LineError::Expected(ExpectedToken::Separator)),
    );
    assert_eq!(
        get_ins("mov 0x4f "),
        Err(LineError::Expected(ExpectedToken::Operand)),
    );
    assert_eq!(
        parse_program("mov 0x4f bh\nmov 0x4f"),
        Err(AsmError::SyntaxError { line: 2, expected: ExpectedToken::Separator }),
    );
}

#[test]
fn bad_mnemonic_and_trailing_text() {
    assert_eq!(
        get_ins("jmp 1 2"),
        Err(LineError::Expected(ExpectedToken::Mnemonic)),
    );
    assert_eq!(
        parse_program("mov 1 2 extra3"),
        Err(AsmError::SyntaxError { line: 1, expected: ExpectedToken::EndOfLine }),
    );
}

#[test]
fn program_lines_and_blank_lines() {
    let p = parse_program("mov 0x4f bh\n\n  \nadd acc acc\n").unwrap();
    assert_eq!(p.instructions.len(), 2);
    assert_eq!(p.instructions[0].ins_name, "mov");
    assert_eq!(p.instructions[1].ins_name, "add");
    // the failing line is numbered counting every line, blank ones included
    assert_eq!(
        parse_program("mov 0x1 acc\n\nmov bad acc"),
        Err(AsmError::SyntaxError { line: 3, expected: ExpectedToken::Operand }),
    );
}

#[test]
fn trailing_separator_is_optional() {
    let (r, _) = get_ins("mov 1 2").unwrap();
    assert_eq!(r, "");
    let (r, _) = get_ins("mov 1 2   ").unwrap();
    assert_eq!(r, "");
}

#[test]
fn encode_mov_and_add() {
    let (_, ins) = get_ins("mov 0xff acc").unwrap();
    assert_eq!(ins.encode().unwrap(), vec![MOV_LIT_REG, 0x00, 0xFF, 0x01]);
    let (_, ins) = get_ins("add acc acc").unwrap();
    assert_eq!(ins.encode().unwrap(), vec![ADD_REG_REG, 0x01, 0x01]);
}

#[test]
fn encode_rejects_what_the_engine_lacks() {
    // `bh` is an assembler register but not an engine register
    let (_, ins) = get_ins("mov 0x4f bh").unwrap();
    assert_eq!(ins.encode(), Err(EncodeError::UnknownRegister));
    // the engine has no subtraction opcode and no register-to-register move
    let (_, ins) = get_ins("sub 1 2").unwrap();
    assert_eq!(ins.encode(), Err(EncodeError::UnsupportedInstruction));
    let (_, ins) = get_ins("mov acc acc").unwrap();
    assert_eq!(ins.encode(), Err(EncodeError::UnsupportedInstruction));
}

#[test]
fn assemble_and_run_end_to_end() {
    let p = parse_program("mov 0xff acc\nadd acc acc\n").unwrap();
    let bytes = encode_program(&p).unwrap();
    assert_eq!(bytes, vec![0x13, 0x00, 0xFF, 0x01, 0x12, 0x01, 0x01, 0x14]);
    let mut cpu = CPU::new(0x40);
    cpu.set_instruction(&bytes);
    while cpu.step() {}
    assert_eq!(cpu.get_register("acc").unwrap(), 0x1FE);
}

#[test]
fn empty_program_encodes_to_end_only() {
    let p = parse_program("").unwrap();
    assert_eq!(p, Program { instructions: vec![] });
    assert_eq!(encode_program(&p).unwrap(), vec![vm16::isa::END]);
}

#[test]
fn parsed_data_constructors() {
    let r8 = RegisterU8::new(3, "bh".to_string());
    assert_eq!(r8.reg_type, 3);
    assert_eq!(r8.reg_name, "bh");

    let r16 = Registeru16::new(16, "acc".to_string());
    assert_eq!(r16.reg_type, 16);
    assert_eq!(r16.reg_name, "acc");

    let lit = Literal { value: 0x4F };
    assert_eq!(lit.value, 0x4F);
    assert_eq!(ParameterType::Literal, ParameterType::Literal);
    assert_ne!(ParameterType::RegisterU8, ParameterType::RegisterU16);

    let ins = Instruction::new(
        "mov",
        Parameter::Lit(1),
        Parameter::RegU16 { name: "acc".to_string(), reg_id: 16 },
    );
    assert_eq!(ins.ins_name, "mov");
    assert_eq!(ins.param1, Parameter::Lit(1));
}
