use iridescent::assembler::instruction_parsers::{build, AssemblerInstruction};
use iridescent::assembler::lexer::parse_token;
use iridescent::assembler::program_parsers::{assemble, program};
use iridescent::assembler::{AssemblyError, Token};
use iridescent::instruction::{Opcode, TokenKind};

#[test]
fn test_parse_instruction_one() {
    let result = program("load $0 #100\n").unwrap();
    assert_eq!(
        result.instructions[0],
        AssemblerInstruction {
            opcode: Token::Op { code: Opcode::LOAD },
            operand_1: Some(Token::Register { reg_num: 0 }),
            operand_2: Some(Token::IntegerOperand { value: 100 }),
            operand_3: None
        }
    )
}

#[test]
fn test_opcode_load() {
    let result = parse_token("load");
    assert_eq!(result.is_ok(), true);
    let token = result.unwrap();
    assert_eq!(token, Token::Op { code: Opcode::LOAD });

    let result = parse_token("oald");
    assert_eq!(result.is_ok(), false);
}

#[test]
fn test_parse_integer_operand() {
    let result = parse_token("#10");
    assert_eq!(result.is_ok(), true);
    let value = result.unwrap();
    assert_eq!(value, Token::IntegerOperand { value: 10 });

    let result = parse_token("10");
    assert_eq!(result.is_ok(), false);
}

#[test]
fn test_parse_program() {
    let result = program("load $0 #100\n");
    assert_eq!(result.is_ok(), true);
    let p = result.unwrap();
    assert_eq!(1, p.instructions.len());
}

#[test]
fn test_program_to_bytes() {
    let result = program("load $0 #100\n");
    assert_eq!(result.is_ok(), true);
    let program = result.unwrap();
    let bytecode = program.to_bytes();
    assert_eq!(bytecode.len(), 4);
    println!("{:?}", bytecode);
}

#[test]
fn test_parse_register() {
    let result = parse_token("$0");
    assert_eq!(result.is_ok(), true);
    let result = parse_token("0");
    assert_eq!(result.is_ok(), false);
    let result = parse_token("$a");
    assert_eq!(result.is_ok(), false);
}

#[test]
fn negative_integer_literal_and_limits() {
    assert_eq!(parse_token("#-7"), Ok(Token::IntegerOperand { value: -7 }));
    assert_eq!(parse_token("#-2147483648"), Ok(Token::IntegerOperand { value: i32::MIN }));
    assert_eq!(parse_token("#2147483647"), Ok(Token::IntegerOperand { value: i32::MAX }));
    assert_eq!(parse_token("#2147483648"), Err(AssemblyError::InvalidIntegerLiteral { offset: 0 }));
    assert_eq!(parse_token("#-"), Err(AssemblyError::InvalidIntegerLiteral { offset: 0 }));
    assert_eq!(parse_token("$31"), Ok(Token::Register { reg_num: 31 }));
    assert_eq!(parse_token("$"), Err(AssemblyError::InvalidRegister { offset: 0 }));
}

#[test]
fn load_assembles_to_big_endian_bytes() {
    let bytes = assemble("load $0 #500").unwrap().bytes;
    assert_eq!(bytes, vec![0, 0, 1, 244]);
    let bytes = assemble("load $31 #65535\n").unwrap().bytes;
    assert_eq!(bytes, vec![0, 31, 255, 255]);
}

#[test]
fn every_mnemonic_assembles() {
    let src = "load $1 #2\nadd $0 $1 $2\nsub $0 $1 $2\nmul $0 $1 $2\ndiv $0 $1 $2\nhlt\n\
jmp $3\njmpf $3\njmpb $3\neq $0 $1 $2\nneq $0 $1 $2\ngt $0 $1 $2\nlt $0 $1 $2\n\
gtq $0 $1 $2\nltq $0 $1 $2\njeq $4\njneq $4\n";
    let bytes = assemble(src).unwrap().bytes;
    let expected: Vec<u8> = vec![
        0, 1, 0, 2, 1, 0, 1, 2, 2, 0, 1, 2, 3, 0, 1, 2, 4, 0, 1, 2, 5, 6, 3, 7, 3, 8, 3, 9, 0,
        1, 2, 10, 0, 1, 2, 11, 0, 1, 2, 12, 0, 1, 2, 13, 0, 1, 2, 14, 0, 1, 2, 15, 4, 16, 4,
    ];
    assert_eq!(bytes, expected);
}

#[test]
fn blank_lines_and_repeated_whitespace_are_ignored() {
    let p = program("\n  \t\nload\t $2   #7  \n\nhlt").unwrap();
    assert_eq!(p.instructions.len(), 2);
    assert_eq!(p.to_bytes(), vec![0, 2, 0, 7, 5]);
}

#[test]
fn encoding_the_same_program_twice_gives_the_same_bytes() {
    let p = program("load $3 #258\nadd $3 $3 $4\nhlt\n").unwrap();
    let first = p.to_bytes();
    let second = p.to_bytes();
    assert_eq!(first, second);
    assert_eq!(first, vec![0, 3, 1, 2, 1, 3, 3, 4, 5]);
}

#[test]
fn empty_source_is_an_empty_program() {
    assert!(matches!(assemble(""), Err(AssemblyError::EmptyProgram)));
    assert!(matches!(assemble("\n \n"), Err(AssemblyError::EmptyProgram)));
}

#[test]
fn register_32_is_invalid() {
    assert_eq!(assemble("load $32 #1").err(), Some(AssemblyError::InvalidRegister { offset: 5 }));
}

#[test]
fn unknown_mnemonic_and_lex_error() {
    assert_eq!(program("jump $1").err(), Some(AssemblyError::UnknownMnemonic { offset: 0 }));
    assert_eq!(
        program("hlt\nload $1 %5").err(),
        Some(AssemblyError::LexError { offset: 12, len: 2 })
    );
}

#[test]
fn malformed_instructions() {
    assert_eq!(
        program("hlt\nadd $0 $1").err(),
        Some(AssemblyError::MalformedInstruction {
            line: 2,
            expected: TokenKind::Register,
            found: TokenKind::EndOfLine
        })
    );
    assert_eq!(
        program("load #1 $0").err(),
        Some(AssemblyError::MalformedInstruction {
            line: 1,
            expected: TokenKind::Register,
            found: TokenKind::Integer
        })
    );
    assert_eq!(
        program("hlt $0").err(),
        Some(AssemblyError::MalformedInstruction {
            line: 1,
            expected: TokenKind::EndOfLine,
            found: TokenKind::Register
        })
    );
    assert_eq!(
        program("$0 hlt").err(),
        Some(AssemblyError::MalformedInstruction {
            line: 1,
            expected: TokenKind::Mnemonic,
            found: TokenKind::Register
        })
    );
}

#[test]
fn integer_outside_sixteen_bits_is_rejected() {
    assert_eq!(
        program("load $0 #65536").err(),
        Some(AssemblyError::IntegerOutOfRange { line: 1, value: 65536 })
    );
    assert_eq!(
        program("load $0 #-1").err(),
        Some(AssemblyError::IntegerOutOfRange { line: 1, value: -1 })
    );
}

#[test]
fn building_from_no_tokens_lacks_a_mnemonic() {
    assert_eq!(
        build(&Vec::new(), 3).err(),
        Some(AssemblyError::MalformedInstruction {
            line: 3,
            expected: TokenKind::Mnemonic,
            found: TokenKind::EndOfLine
        })
    );
}
