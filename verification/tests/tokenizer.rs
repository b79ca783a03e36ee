use inline_colorization::{color_red, color_reset, style_bold, style_reset};

use aqa_asm::operand::Operand;
use aqa_asm::source_opcode::SourceOpcode;
use aqa_asm::token::{Token, TokenKind, TokenPosition};
use aqa_asm::tokenizer::Tokenizer;
use aqa_asm::tokenizer_error::{
DuplicateLabelDefinition, InvalidCommentDenoter, InvalidLabelDefinitionLocation, InvalidRegisterNumber,
LiteralValueTooLarge, MissingNumberAfterLiteralDenoter, MissingNumberAfterRegisterDenoter, ProgramTooLarge,
TokenizerError, UnexpectedCharacter, UnterminatedBlockComment,
};




/// Given a Vec<Token> return a Vec<TokenType> (the token type for each token)
fn extract_token_types(tokens: Vec<Token>) -> Vec<TokenKind> {
    tokens.into_iter().map(|token| token.kind).collect()
}

/// Given a Vec<Token> return vec of tuples of line and column numbers for each token
fn extract_token_line_column_numbers(tokens: Vec<Token>) -> Vec<(usize, usize)> {
    tokens
        .into_iter()
        .map(|token| (token.line, token.col))
        .collect()
}

/// Test tokenizer produce correct token type sequence for given input string
fn test_token_type_sequence(input: &str, expected: &[TokenKind]) {
    let token_types = extract_token_types(Tokenizer::tokenize(input, 4).unwrap().tokens);
    assert_eq!(token_types, expected);
}

#[test]
fn mod_test_tokens_isolated() {
    for (input, expected_output) in [
        ("\n", TokenKind::Newline),
        (";", TokenKind::Semicolon),
        (",", TokenKind::Comma),
        ("123", TokenKind::Operand(Operand::MemoryRef(123))),
        ("#12", TokenKind::Operand(Operand::Literal(12))),
        ("R3", TokenKind::Operand(Operand::Register(3))),
        ("label_operand", TokenKind::Operand(Operand::Label)),
        ("NOP", TokenKind::Opcode(SourceOpcode::Nop)),
        ("LDR", TokenKind::Opcode(SourceOpcode::Ldr)),
        ("STR", TokenKind::Opcode(SourceOpcode::Str)),
        ("ADD", TokenKind::Opcode(SourceOpcode::Add)),
        ("SUB", TokenKind::Opcode(SourceOpcode::Sub)),
        ("MOV", TokenKind::Opcode(SourceOpcode::Mov)),
        ("CMP", TokenKind::Opcode(SourceOpcode::Cmp)),
        ("B", TokenKind::Opcode(SourceOpcode::B)),
        ("BEQ", TokenKind::Opcode(SourceOpcode::Beq)),
        ("BNE", TokenKind::Opcode(SourceOpcode::Bne)),
        ("BGT", TokenKind::Opcode(SourceOpcode::Bgt)),
        ("BLT", TokenKind::Opcode(SourceOpcode::Blt)),
        ("AND", TokenKind::Opcode(SourceOpcode::And)),
        ("ORR", TokenKind::Opcode(SourceOpcode::Orr)),
        ("EOR", TokenKind::Opcode(SourceOpcode::Eor)),
        ("MVN", TokenKind::Opcode(SourceOpcode::Mvn)),
        ("LSL", TokenKind::Opcode(SourceOpcode::Lsl)),
        ("LSR", TokenKind::Opcode(SourceOpcode::Lsr)),
        ("PRINT", TokenKind::Opcode(SourceOpcode::Print)),
        ("INPUT", TokenKind::Opcode(SourceOpcode::Input)),
        ("HALT", TokenKind::Opcode(SourceOpcode::Halt)),
    ] {
        test_token_type_sequence(input, &[expected_output]);
    }
}

#[test]
fn mod_test_comment_line_single() {
    test_token_type_sequence("NOP // Comment", &[TokenKind::Opcode(SourceOpcode::Nop)]);
}

#[test]
fn mod_test_comment_line_multiline() {
    test_token_type_sequence(
        "NOP /* Multiline \n Comment */",
        &[TokenKind::Opcode(SourceOpcode::Nop)],
    );
}

#[test]
fn mod_test_comment_block_multiline() {
    test_token_type_sequence(
        "NOP /* Multiline \n Comment \n */ NOP",
        &[
            TokenKind::Opcode(SourceOpcode::Nop),
            TokenKind::Opcode(SourceOpcode::Nop),
        ],
    );
}

#[test]
fn mod_test_empty_program() {
    test_token_type_sequence("", &[]);
}

#[test]
fn mod_test_missing_register_number() {
    assert_eq!(
        Tokenizer::tokenize("MOV R #23", 4).unwrap_err(),
        TokenizerError::MissingNumberAfterRegisterDenoter(Box::new(
            MissingNumberAfterRegisterDenoter { line: 1, col: 5 }
        ))
    );
}

#[test]
fn mod_test_missing_literal_number() {
    assert_eq!(
        Tokenizer::tokenize("MOV R5 #", 4).unwrap_err(),
        TokenizerError::MissingNumberAfterLiteralDenoter(Box::new(
            MissingNumberAfterLiteralDenoter { line: 1, col: 8 }
        ))
    );
}

#[test]
fn mod_test_unterminated_block_comment() {
    // No ending delimeter (*/)
    assert_eq!(
        Tokenizer::tokenize("MOV R5 #23 /* this is an unterminated block comment", 4)
            .unwrap_err(),
        TokenizerError::UnterminatedBlockComment(Box::new(UnterminatedBlockComment {
            line: 1,
            col: 12
        }))
    );
    // Half an ending delimeter
    assert_eq!(
        Tokenizer::tokenize("MOV R5 #23 /* this is an unterminated block comment*", 4)
            .unwrap_err(),
        TokenizerError::UnterminatedBlockComment(Box::new(UnterminatedBlockComment {
            line: 1,
            col: 12
        }))
    );
}

#[test]
fn mod_test_invalid_comment_denoter() {
    assert_eq!(
        Tokenizer::tokenize("/", 4).unwrap_err(),
        TokenizerError::InvalidCommentDenoter(Box::new(InvalidCommentDenoter {
            line: 1,
            col: 1
        }))
    );
}

#[test]
fn mod_test_duplicate_label_definitions() {
    assert_eq!(
        Tokenizer::tokenize(
            "label:
NOP
label:
NOP",
            4
        )
        .unwrap_err(),
        TokenizerError::DuplicateLabelDefinition(Box::new(DuplicateLabelDefinition {
            label_name: String::from("label"),
            line: 3,
            col: 1
        }))
    );
}

#[test]
fn mod_test_invalid_register_number() {
    assert_eq!(
        Tokenizer::tokenize("R13", 4).unwrap_err(),
        TokenizerError::InvalidRegisterNumber(Box::new(InvalidRegisterNumber {
            value: 13,
            line: 1,
            col: 1
        }))
    );

    assert_eq!(
        Tokenizer::tokenize("R12345", 4).unwrap_err(),
        TokenizerError::LiteralValueTooLarge(Box::new(LiteralValueTooLarge {
            value_string: String::from("12345"),
            line: 1,
            col: 1
        }))
    )
}

#[test]
fn mod_test_too_large_program() {
    assert_eq!(
        Tokenizer::tokenize(&"NOP;".repeat(257), 4).unwrap_err(),
        TokenizerError::ProgramTooLarge(Box::new(ProgramTooLarge { line: 1, col: 1025 }))
    );
}

#[test]
fn mod_test_label_definition_not_after_line_delimeters() {
    assert_eq!(
        Tokenizer::tokenize("NOP label:", 4).unwrap_err(),
        TokenizerError::InvalidLabelDefinitionLocation(Box::new(
            InvalidLabelDefinitionLocation {
                label_name: String::from("label"),
                line: 1,
                col: 5
            }
        ))
    );
}

#[test]
fn mod_test_memory_reference_too_large() {
    assert_eq!(
        Tokenizer::tokenize("256", 4).unwrap_err(),
        TokenizerError::LiteralValueTooLarge(Box::new(LiteralValueTooLarge {
            value_string: String::from("256"),
            line: 1,
            col: 1
        }))
    );
}

#[test]
fn mod_test_literal_value_too_large() {
    assert_eq!(
        Tokenizer::tokenize("#256", 4).unwrap_err(),
        TokenizerError::LiteralValueTooLarge(Box::new(LiteralValueTooLarge {
            value_string: String::from("256"),
            line: 1,
            col: 1
        }))
    );
}

#[test]
fn mod_test_invalid_characters() {
    assert_eq!(
        Tokenizer::tokenize("NOP; label: ??", 4).unwrap_err(),
        TokenizerError::UnexpectedCharacter(Box::new(UnexpectedCharacter {
            char: '?',
            line: 1,
            col: 13
        }))
    )
}

#[test]
fn mod_test_line_col_calculations() {
    let input = "MOV R5 #3 #2
;23#54 ,\t,
R11 /* bruh */ LDR ;\t// hello!
           /* this is a 
           multiline
           comment
  */ MOV;
#23 98 R10 MOV ; ,
;\tbruh: ; bruh_two: bruh_three
";
    assert_eq!(
        extract_token_line_column_numbers(Tokenizer::tokenize(input, 4).unwrap().tokens),
        vec![
            (1,1), (1,5), (1,8), (1,11), (1,13),
            (2,1), (2,2), (2,4), (2,8), (2,13), (2,14),
            (3,1), (3,16), (3,20), (3,34),
            (7, 6), (7,9), (7, 10),
            (8, 1), (8,5), (8,8), (8,12), (8,16), (8,18), (8,19),
            (9, 1), (9,12), (9,24), (9,34),
        ]
    )
}

#[test]
fn test_token_new() {
    let token = Token::new(TokenKind::Opcode(SourceOpcode::Mov), "MOV", 1, 1);

    assert_eq!(token.kind, TokenKind::Opcode(SourceOpcode::Mov));
    assert_eq!(token.lexeme, "MOV");
    assert_eq!(token.line, 1);
    assert_eq!(token.col, 1);
}

#[test]
fn test_token_kind_display() {
    let operand = TokenKind::Operand(Operand::Register(3));
    let opcode = TokenKind::Opcode(SourceOpcode::Mov);

    assert_eq!(operand.to_display_string(), Operand::Register(3).to_display_string());
    assert_eq!(opcode.to_display_string(), SourceOpcode::Mov.name());
    assert_eq!(TokenKind::Newline.to_display_string(), "newline");
    assert_eq!(TokenKind::Semicolon.to_display_string(), "semicolon");
    assert_eq!(TokenKind::Comma.to_display_string(), "comma");
    assert_eq!(
        TokenKind::LabelDefinition.to_display_string(),
        "label definition"
    );
}

#[test]
fn test_token_get_debug_repr() {
    let token_newline = Token::new(TokenKind::Newline, "\n", 1, 1);
    assert_eq!(token_newline.get_token_debug_repr(), "'newline'");
    let token_operand = Token::new(TokenKind::Operand(Operand::Register(3)), "R3", 1, 1);
    assert_eq!(token_operand.get_token_debug_repr(), "'R3'");
}

#[test]
fn test_token_position_default() {
    let pos = TokenPosition::default();
    assert_eq!(pos.idx, 0);
    assert_eq!(pos.line, 1);
    assert_eq!(pos.col, 1);
}

#[test]
fn test_display_tokenizer_error() {

    for (input, expected) in [
        (
            TokenizerError::ProgramTooLarge(Box::new(ProgramTooLarge { line: 1, col: 2 })),
            "Line 1, Column 2 :: Program exceeds memory limit (256 bytes)",
        ),
        (
            TokenizerError::LiteralValueTooLarge(Box::new(LiteralValueTooLarge {
                value_string: String::from("12345"),
                line: 36,
                col: 7778,
            })),
            "Line 36, Column 7778 :: Literal value '12345' too large (max value of 255)",
        ),
        (
            TokenizerError::MissingNumberAfterRegisterDenoter(Box::new(
                MissingNumberAfterRegisterDenoter {
                    line: 1919,
                    col: 6969,
                },
            )),
            "Line 1919, Column 6969 :: Missing number after register denoter 'R'",
        ),
        (
            TokenizerError::MissingNumberAfterLiteralDenoter(Box::new(
                MissingNumberAfterLiteralDenoter { line: 3, col: 4 },
            )),
            "Line 3, Column 4 :: Missing number after literal denoter '#'",
        ),
        (
            TokenizerError::InvalidRegisterNumber(Box::new(InvalidRegisterNumber {
                value: 0,
                line: 13,
                col: 8,
            })),
            "Line 13, Column 8 :: Invalid register 'R0' (must be in range 0-12 inclusive)",
        ),
        (
            TokenizerError::InvalidLabelDefinitionLocation(Box::new(InvalidLabelDefinitionLocation {
                label_name: String::from("main"),
                line: 10,
                col: 5,
            })),
            "Line 10, Column 5 :: Invalid label definition location for label 'main', labels may only appear after line delimiters (newline or ';')",
        ),
        (
            TokenizerError::DuplicateLabelDefinition(Box::new(DuplicateLabelDefinition {
                label_name: String::from("loop"),
                line: 6,
                col: 14,
            })),
            "Line 6, Column 14 :: Definition for label 'loop' already exists",
        ),
        (
            TokenizerError::UnterminatedBlockComment(Box::new(UnterminatedBlockComment {
                line: 15,
                col: 20,
            })),
            "Line 15, Column 20 :: Unterminated block comment begins here",
        ),
        (
            TokenizerError::InvalidCommentDenoter(Box::new(InvalidCommentDenoter {
                line: 4,
                col: 9,
            })),
            "Line 4, Column 9 :: Expected '//' or '/*' for comment, not '/'",
        ),
        (
            TokenizerError::UnexpectedCharacter(Box::new(UnexpectedCharacter {
                char: '@',
                line: 7,
                col: 11,
            })),
            "Line 7, Column 11 :: Unexpected character: '@'",
        ),
    ] {
        assert_eq!(
            input.to_display_string(),
            format!("{color_red}{style_bold}{expected}{color_reset}{style_reset}"),
        );
    }
}
