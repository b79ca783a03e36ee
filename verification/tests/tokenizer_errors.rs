use std::str::FromStr;

use aqa_asm::runtime_opcode::RuntimeOpcode;
use aqa_asm::source_opcode::SourceOpcode;
use aqa_asm::tokenizer::Tokenizer;
use aqa_asm::tokenizer_error::TokenizerError;

#[test]
fn tokenizer_test_missing_register_number() {
    assert!(matches!(
        Tokenizer::tokenize("MOV R #23", 4),
        Err(TokenizerError::MissingNumberAfterRegisterDenoter { .. })
    ));
}

#[test]
fn tokenizer_test_missing_literal_number() {
    assert!(matches!(
        Tokenizer::tokenize("MOV R5 #", 4),
        Err(TokenizerError::MissingNumberAfterLiteralDenoter { .. })
    ));
}

#[test]
fn tokenizer_test_unterminated_block_comment() {
    let input = "MOV R5 #23 /*
        this is an unterminated block comment";
    assert!(matches!(
        Tokenizer::tokenize(input, 4),
        Err(TokenizerError::UnterminatedBlockComment { .. })
    ));
    // No ending delimeter (*/)
    assert!(matches!(
        Tokenizer::tokenize("MOV R5 #23 /* this is an unterminated block comment", 4),
        Err(TokenizerError::UnterminatedBlockComment { .. })
    ));
    // Half an ending delimeter
    assert!(matches!(
        Tokenizer::tokenize("MOV R5 #23 /* this is an unterminated block comment*", 4),
        Err(TokenizerError::UnterminatedBlockComment { .. })
    ));
}

#[test]
fn tokenizer_test_invalid_comment_denoter() {
    assert!(matches!(
        Tokenizer::tokenize("/", 4),
        Err(TokenizerError::InvalidCommentDenoter { .. })
    ));
}

#[test]
fn tokenizer_test_duplicate_label_definitions() {
    let input = "label:
        NOP
        label:
        NOP";
    assert!(matches!(
        Tokenizer::tokenize(input, 4),
        Err(TokenizerError::DuplicateLabelDefinition { .. })
    ));
}

#[test]
fn tokenizer_test_invalid_register_number() {
    assert!(matches!(
        Tokenizer::tokenize("R13", 4),
        Err(TokenizerError::InvalidRegisterNumber { .. })
    ));
}

#[test]
fn tokenizer_test_too_large_program() {
    let input = "NOP;".repeat(257);
    assert!(matches!(
        Tokenizer::tokenize(&input, 4),
        Err(TokenizerError::ProgramTooLarge { .. })
    ));
}

#[test]
fn tokenizer_test_label_definition_not_after_line_delimeters() {
    assert!(matches!(
        Tokenizer::tokenize("NOP label:", 4),
        Err(TokenizerError::InvalidLabelDefinitionLocation { .. })
    ));
}

#[test]
fn tokenizer_test_memory_reference_too_large() {
    assert!(matches!(
        Tokenizer::tokenize("256", 4),
        Err(TokenizerError::LiteralValueTooLarge { .. })
    ));
}

#[test]
fn tokenizer_test_literal_value_too_large() {
    assert!(matches!(
        Tokenizer::tokenize("#256", 4),
        Err(TokenizerError::LiteralValueTooLarge { .. })
    ));
}

#[test]
fn tokenizer_test_invalid_characters() {
    assert!(matches!(
        Tokenizer::tokenize("NOP; label: ??", 4),
        Err(TokenizerError::UnexpectedCharacter { .. })
    ));
}

#[test]
fn test_assembly_opcode_from_str() {
    for (input, expected) in [
        // Ensure all
        ("NOP", Ok(SourceOpcode::Nop)),
        ("LDR", Ok(SourceOpcode::Ldr)),
        ("STR", Ok(SourceOpcode::Str)),
        ("ADD", Ok(SourceOpcode::Add)),
        ("SUB", Ok(SourceOpcode::Sub)),
        ("MOV", Ok(SourceOpcode::Mov)),
        ("CMP", Ok(SourceOpcode::Cmp)),
        ("B", Ok(SourceOpcode::B)),
        ("BEQ", Ok(SourceOpcode::Beq)),
        ("BNE", Ok(SourceOpcode::Bne)),
        ("BGT", Ok(SourceOpcode::Bgt)),
        ("BLT", Ok(SourceOpcode::Blt)),
        ("AND", Ok(SourceOpcode::And)),
        ("ORR", Ok(SourceOpcode::Orr)),
        ("EOR", Ok(SourceOpcode::Eor)),
        ("MVN", Ok(SourceOpcode::Mvn)),
        ("LSL", Ok(SourceOpcode::Lsl)),
        ("LSR", Ok(SourceOpcode::Lsr)),
        ("HALT", Ok(SourceOpcode::Halt)),
        ("PRINT", Ok(SourceOpcode::Print)),
        ("INPUT", Ok(SourceOpcode::Input)),
        // lowercase commands shouldn't work
        ("nop", Err(())),
        ("input", Err(())),
        // whitespace should be important
        ("A N D", Err(())),
        ("AND  ", Err(())),
        ("  AND", Err(())),
        ("  AND  ", Err(())),
        // random words shouldn't work
        ("foo", Err(())),
        ("bar", Err(())),
    ] {
        assert_eq!(SourceOpcode::from_str(input), expected);
    }
}

#[test]
fn test_binary_opcode_from_u8() {
    for (input, expected) in [
        (0, Ok(RuntimeOpcode::Nop)),
        (1, Ok(RuntimeOpcode::Ldr)),
        (2, Ok(RuntimeOpcode::Str)),
        (3, Ok(RuntimeOpcode::AddRegister)),
        (4, Ok(RuntimeOpcode::AddLiteral)),
        (5, Ok(RuntimeOpcode::SubRegister)),
        (6, Ok(RuntimeOpcode::SubLiteral)),
        (7, Ok(RuntimeOpcode::MovRegister)),
        (8, Ok(RuntimeOpcode::MovLiteral)),
        (9, Ok(RuntimeOpcode::CmpRegister)),
        (10, Ok(RuntimeOpcode::CmpLiteral)),
        (11, Ok(RuntimeOpcode::B)),
        (12, Ok(RuntimeOpcode::Beq)),
        (13, Ok(RuntimeOpcode::Bne)),
        (14, Ok(RuntimeOpcode::Bgt)),
        (15, Ok(RuntimeOpcode::Blt)),
        (16, Ok(RuntimeOpcode::AndRegister)),
        (17, Ok(RuntimeOpcode::AndLiteral)),
        (18, Ok(RuntimeOpcode::OrrRegister)),
        (19, Ok(RuntimeOpcode::OrrLiteral)),
        (20, Ok(RuntimeOpcode::EorRegister)),
        (21, Ok(RuntimeOpcode::EorLiteral)),
        (22, Ok(RuntimeOpcode::MvnRegister)),
        (23, Ok(RuntimeOpcode::MvnLiteral)),
        (24, Ok(RuntimeOpcode::LslRegister)),
        (25, Ok(RuntimeOpcode::LslLiteral)),
        (26, Ok(RuntimeOpcode::LsrRegister)),
        (27, Ok(RuntimeOpcode::LsrLiteral)),
        (28, Ok(RuntimeOpcode::PrintRegister)),
        (29, Ok(RuntimeOpcode::PrintMemory)),
        (30, Ok(RuntimeOpcode::InputRegister)),
        (31, Ok(RuntimeOpcode::InputMemory)),
        (32, Ok(RuntimeOpcode::Halt)),
    ] {
        assert_eq!(RuntimeOpcode::try_from(input), expected);
    }

    for input in 33..=255 {
        assert_eq!(RuntimeOpcode::try_from(input), Err(()));
    }
}
