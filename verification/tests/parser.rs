use inline_colorization::{color_red, color_reset, style_bold, style_reset};

use aqa_asm::operand::Operand;
use aqa_asm::parser::Parser;
use aqa_asm::parser_error::{
    ExpectedOpcode, ExpectedOperand, ExpectedTokenKind, InvalidInstructionSignature, InvalidLabel,
    LabelDuplicateDefinition, ParserError,
};
use aqa_asm::runtime_opcode::RuntimeOpcode;
use aqa_asm::signature::signature_tree;
use aqa_asm::source_opcode::SourceOpcode;
use aqa_asm::token::{Token, TokenKind};
use aqa_asm::tokenizer::LabelDefinition;





    fn load_test_program(program: &[u8]) -> [u8; 256] {
        let mut memory = [0; 256];
        memory[..program.len()].copy_from_slice(&program);
        memory
    }

    #[test]
    fn test_parse_valid_instructions() {}

    #[test]
    fn test_excess_line_delimeters() {
        /*
        PRINT R0;;;;
        ;
        ;
        HALT;;;;
        */
        let tokens = vec![
            Token::new(TokenKind::Opcode(SourceOpcode::Print), "PRINT", 1, 1),
            Token::new(TokenKind::Operand(Operand::Register(0)), "R0", 1, 7),
            Token::new(TokenKind::Semicolon, ";", 1, 9),
            Token::new(TokenKind::Semicolon, ";", 1, 10),
            Token::new(TokenKind::Semicolon, ";", 1, 11),
            Token::new(TokenKind::Semicolon, ";", 1, 12),
            Token::new(TokenKind::Newline, "\n", 1, 13),
            Token::new(TokenKind::Semicolon, ";", 2, 1),
            Token::new(TokenKind::Newline, "\n", 2, 2),
            Token::new(TokenKind::Semicolon, ";", 3, 1),
            Token::new(TokenKind::Newline, "\n", 3, 2),
            Token::new(TokenKind::Opcode(SourceOpcode::Halt), "HALT", 4, 1),
            Token::new(TokenKind::Semicolon, ";", 4, 5),
            Token::new(TokenKind::Semicolon, ";", 4, 6),
            Token::new(TokenKind::Semicolon, ";", 4, 7),
            Token::new(TokenKind::Semicolon, ";", 4, 8),
            Token::new(TokenKind::Newline, "\n", 4, 9),
        ];
        let result = Parser::parse(tokens, Vec::new()).unwrap();
        let expected = load_test_program(&[
            RuntimeOpcode::PrintRegister as u8,
            0,
            RuntimeOpcode::Halt as u8,
        ]);
        assert_eq!(result, expected);
    }

    #[test]
    fn test_parse_error_invalid_label() {
        // Test for every branch instruction
        for source_opcode in [
            SourceOpcode::B,
            SourceOpcode::Beq,
            SourceOpcode::Bne,
            SourceOpcode::Bgt,
            SourceOpcode::Blt,
        ] {
            let tokens = vec![
                Token::new(TokenKind::Opcode(source_opcode), "", 1, 1),
                Token::new(TokenKind::Operand(Operand::Label), "branch", 1, 1000),
                Token::new(TokenKind::Newline, "\n", 1, 1001),
            ];
            let result = Parser::parse(tokens, Vec::new()).unwrap_err();
            let expected = ParserError::InvalidLabel(Box::new(InvalidLabel {
                token: Token::new(TokenKind::Operand(Operand::Label), "branch", 1, 1000),
            }));
            assert_eq!(result, expected)
        }
    }

    #[test]
    fn test_parse_error_expected_opcode() {
        //,
        let comma = Token::new(TokenKind::Comma, ",", 1, 1);
        let tokens = vec![comma.clone()];
        let result = Parser::parse(tokens, Vec::new()).unwrap_err();
        let expected = ParserError::ExpectedOpcode(Box::new(ExpectedOpcode { got: comma }));
        assert_eq!(result, expected);
        //HALT; R4
        let register = Token::new(TokenKind::Operand(Operand::Register(4)), "R4", 1, 7);
        let tokens = vec![
            Token::new(TokenKind::Opcode(SourceOpcode::Halt), "HALT", 1, 1),
            Token::new(TokenKind::Semicolon, ";", 1, 5),
            register.clone(),
        ];
        let result = Parser::parse(tokens, Vec::new()).unwrap_err();
        let expected = ParserError::ExpectedOpcode(Box::new(ExpectedOpcode { got: register }));
        assert_eq!(result, expected);
    }

    #[test]
    fn test_parse_error_expected_operand() {
        // MOV R4,;
        // Expected an operand but received an incorrect token
        let semicolon = Token::new(TokenKind::Semicolon, ";", 1, 9);
        let tokens = vec![
            Token::new(TokenKind::Opcode(SourceOpcode::Mov), "MOV", 1, 1),
            Token::new(TokenKind::Operand(Operand::Register(4)), "R4", 1, 5),
            Token::new(TokenKind::Comma, ",", 1, 7),
            semicolon.clone(),
        ];
        let result = Parser::parse(tokens, Vec::new()).unwrap_err();
        let expected = ParserError::ExpectedOperand(Box::new(ExpectedOperand {
            got: Some(semicolon),
        }));
        assert_eq!(result, expected);
        // MOV R4,
        // Expected an operand but received EOF
        let tokens = vec![
            Token::new(TokenKind::Opcode(SourceOpcode::Mov), "MOV", 1, 1),
            Token::new(TokenKind::Operand(Operand::Register(4)), "R4", 1, 5),
            Token::new(TokenKind::Comma, ",", 1, 7),
        ];
        let result = Parser::parse(tokens, Vec::new()).unwrap_err();
        let expected = ParserError::ExpectedOperand(Box::new(ExpectedOperand { got: None }));
        assert_eq!(result, expected);
    }

    #[test]
    fn test_parse_error_expected_line_delimeter() {
        // HALT HALT
        let halt = Token::new(TokenKind::Opcode(SourceOpcode::Halt), "HALT", 1, 6);
        let tokens = vec![
            Token::new(TokenKind::Opcode(SourceOpcode::Halt), "HALT", 1, 1),
            halt.clone(),
        ];
        let result = Parser::parse(tokens, Vec::new()).unwrap_err();
        let expected = ParserError::ExpectedTokenKind(Box::new(ExpectedTokenKind {
            candidates: vec![TokenKind::Semicolon, TokenKind::Newline],
            got: Some(halt),
        }));
        assert_eq!(result, expected);
        // HALT
        let tokens = vec![Token::new(
            TokenKind::Opcode(SourceOpcode::Halt),
            "HALT",
            1,
            1,
        )];
        let result = Parser::parse(tokens, Vec::new()).unwrap_err();
        let expected = ParserError::ExpectedTokenKind(Box::new(ExpectedTokenKind {
            candidates: vec![TokenKind::Semicolon, TokenKind::Newline],
            got: None,
        }));
        assert_eq!(result, expected);
        // HALT,
        let comma = Token::new(TokenKind::Comma, ",", 1, 5);
        let tokens = vec![
            Token::new(TokenKind::Opcode(SourceOpcode::Halt), "HALT", 1, 1),
            comma.clone(),
        ];
        let result = Parser::parse(tokens, Vec::new()).unwrap_err();
        let expected = ParserError::ExpectedTokenKind(Box::new(ExpectedTokenKind {
            candidates: vec![TokenKind::Semicolon, TokenKind::Newline],
            got: Some(comma),
        }));
        assert_eq!(result, expected);
    }

    #[test]
    fn test_parse_error_expected_comma() {
        // MOV R4 R5;
        let register = Token::new(TokenKind::Operand(Operand::Register(5)), "R5", 1, 8);
        let tokens = vec![
            Token::new(TokenKind::Opcode(SourceOpcode::Mov), "MOV", 1, 1),
            Token::new(TokenKind::Operand(Operand::Register(4)), "R4", 1, 5),
            register.clone(),
            Token::new(TokenKind::Semicolon, ";", 1, 10),
        ];
        let result = Parser::parse(tokens, Vec::new()).unwrap_err();
        let expected = ParserError::ExpectedTokenKind(Box::new(ExpectedTokenKind {
            candidates: vec![TokenKind::Comma],
            got: Some(register),
        }));
        assert_eq!(result, expected)
    }

    #[test]
    fn test_parse_error_invalid_instruction_signature() {}

    #[test]
    fn test_display_parser_error() {
        for (input, expected) in [
            (
                ParserError::ExpectedOpcode(Box::new(ExpectedOpcode {
                    got: Token::new(TokenKind::Comma, ",", 12, 5),
                })),
                "Line 12, Column 5 :: Expected instruction opcode but found token ','",
            ),
            (
                ParserError::ExpectedOperand(Box::new(ExpectedOperand { got: None })),
                "Expected operand but found EOF",
            ),
            (
                ParserError::ExpectedOperand(Box::new(ExpectedOperand {
                    got: Some(Token::new(TokenKind::Semicolon, ";", 4444, 1)),
                })),
                "Line 4444, Column 1 :: Expected operand but found token ';'",
            ),
            (
                ParserError::ExpectedTokenKind(Box::new(ExpectedTokenKind {
                    candidates: vec![TokenKind::Comma],
                    got: None,
                })),
                "Expected comma but found EOF",
            ),
            (
                ParserError::ExpectedTokenKind(Box::new(ExpectedTokenKind {
                    candidates: vec![TokenKind::Comma],
                    got: Some(Token::new(TokenKind::Semicolon, ";", 123, 22)),
                })),
                "Line 123, Column 22 :: Expected comma but found token ';'",
            ),
            (
                ParserError::ExpectedTokenKind(Box::new(ExpectedTokenKind {
                    candidates: vec![TokenKind::Comma, TokenKind::Semicolon],
                    got: None,
                })),
                "Expected comma or semicolon but found EOF",
            ),
            (
                ParserError::ExpectedTokenKind(Box::new(ExpectedTokenKind {
                    candidates: vec![TokenKind::Comma, TokenKind::Semicolon],
                    got: Some(Token::new(
                        TokenKind::Operand(Operand::Register(0)),
                        "R0",
                        1,
                        100,
                    )),
                })),
                "Line 1, Column 100 :: Expected comma or semicolon but found token 'R0'",
            ),
            (
                ParserError::ExpectedTokenKind(Box::new(ExpectedTokenKind {
                    candidates: vec![TokenKind::Comma, TokenKind::Semicolon, TokenKind::Newline],
                    got: None,
                })),
                "Expected one of the following:
• comma
• semicolon
• newline
but found EOF",
            ),
            (
                ParserError::ExpectedTokenKind(Box::new(ExpectedTokenKind {
                    candidates: vec![TokenKind::Comma, TokenKind::Semicolon, TokenKind::Newline],
                    got: Some(Token::new(
                        TokenKind::Operand(Operand::Label),
                        "label",
                        12764,
                        505,
                    )),
                })),
                "Line 12764, Column 505 :: Expected one of the following:
• comma
• semicolon
• newline
but found token 'label'",
            ),
            (
                ParserError::InvalidLabel(Box::new(InvalidLabel {
                    token: Token::new(TokenKind::Operand(Operand::Label), "label", 104, 0),
                })),
                "Line 104, Column 0 :: No label exists with name: 'label'",
            ),
            (
                ParserError::InvalidInstructionSignature(Box::new(InvalidInstructionSignature {
                    opcode_token: Token::new(TokenKind::Opcode(SourceOpcode::Halt), "HALT", 50, 50),
                    source_opcode: SourceOpcode::Halt,
                    received: vec![Operand::Register(0)],
                })),
                "Line 50, Column 50 :: 'HALT register' is not a valid signature! Potential signatures are listed below:
• HALT ",
            ),
            (
                ParserError::InvalidInstructionSignature(Box::new(InvalidInstructionSignature {
                    opcode_token: Token::new(TokenKind::Opcode(SourceOpcode::Mov), "MOV", 500, 20),
                    source_opcode: SourceOpcode::Mov,
                    received: vec![Operand::Register(0), Operand::Register(0), Operand::Register(0)],
                })),
                "Line 500, Column 20 :: 'MOV register, register, register' is not a valid signature! Potential signatures are listed below:
• MOV register, register
• MOV register, literal",
            ),
            (
                ParserError::LabelDuplicateDefinition(Box::new(LabelDuplicateDefinition {
                    name: String::from("test"),
                    line: 1200,
                    col: 130
                })),
                "Line 1200, Column 130 :: Label 'test' defined multiple times"
            ),
            (
                ParserError::ProgramTooLarge,
                "Program exceeds memory limit (256 bytes)"
            )
        ] {
            assert_eq!(
                input.to_display_string(),
                format!("{color_red}{style_bold}{expected}{color_reset}{style_reset}")
            );
        }
    }

const ALL_SOURCE_OPCODES: [SourceOpcode; 21] = [
    SourceOpcode::Nop,
    SourceOpcode::Ldr,
    SourceOpcode::Str,
    SourceOpcode::Add,
    SourceOpcode::Sub,
    SourceOpcode::Mov,
    SourceOpcode::Cmp,
    SourceOpcode::B,
    SourceOpcode::Beq,
    SourceOpcode::Bne,
    SourceOpcode::Bgt,
    SourceOpcode::Blt,
    SourceOpcode::And,
    SourceOpcode::Orr,
    SourceOpcode::Eor,
    SourceOpcode::Mvn,
    SourceOpcode::Lsl,
    SourceOpcode::Lsr,
    SourceOpcode::Print,
    SourceOpcode::Input,
    SourceOpcode::Halt,
];

fn create_tokens_from_token_type(token_types: &[TokenKind]) -> Vec<Token> {
    token_types.iter().map(|&ty| Token::new(ty, "", 0, 0)).collect()
}

fn zero_operand(argument: aqa_asm::signature::SignatureArgument) -> Operand {
    match argument {
        aqa_asm::signature::SignatureArgument::Register => Operand::Register(0),
        aqa_asm::signature::SignatureArgument::MemoryRef => Operand::MemoryRef(0),
        aqa_asm::signature::SignatureArgument::Label => Operand::Label,
        aqa_asm::signature::SignatureArgument::Literal => Operand::Literal(0),
    }
}

#[test]
fn parser_test_all_valid_instructions() {
    let tree = signature_tree();
    for source_opcode in ALL_SOURCE_OPCODES {
        let operand_formats = tree.get_all_valid_operand_combinations_for_source_opcode(source_opcode);
        for (runtime_opcode, operands) in operand_formats {
            // Create input
            let mut input = vec![TokenKind::Opcode(source_opcode)];
            for (i, &operand_type) in operands.iter().enumerate() {
                input.push(TokenKind::Operand(zero_operand(operand_type)));
                if i < operands.len() - 1 {
                    input.push(TokenKind::Comma);
                }
            }
            input.push(TokenKind::Semicolon);
            // Expected result - instruction with all zero operands
            let mut expected_result = vec![runtime_opcode as u8];
            for _ in 0..operands.len() {
                expected_result.push(0);
            }
            // Parse
            let tokens = create_tokens_from_token_type(&input);
            let memory = Parser::parse(
                tokens,
                vec![(String::new(), LabelDefinition { byte: 0, line: 0, col: 0 })],
            )
            .unwrap();
            assert!(expected_result
                .iter()
                .zip(memory.iter())
                .take(expected_result.len())
                .all(|(a, b)| a == b));
        }
    }
}

#[test]
fn test_missing_line_delimeter() {
    let program = &[
        TokenKind::Opcode(SourceOpcode::Add),
        TokenKind::Operand(Operand::Register(0)),
        TokenKind::Comma,
        TokenKind::Operand(Operand::Register(0)),
        TokenKind::Comma,
        TokenKind::Operand(Operand::Literal(0)),
    ];
    let tokens = create_tokens_from_token_type(program);
    assert!(matches!(
        Parser::parse(tokens, Vec::new()),
        Err(ParserError::ExpectedTokenKind(err))
            if err.candidates == vec![TokenKind::Semicolon, TokenKind::Newline] && err.got.is_none()
    ));
}

#[test]
fn test_expected_opcode() {
    let program = &[TokenKind::Operand(Operand::Register(0))];
    let tokens = create_tokens_from_token_type(program);
    assert!(matches!(
        Parser::parse(tokens, Vec::new()),
        Err(ParserError::ExpectedOpcode { .. })
    ));
}
