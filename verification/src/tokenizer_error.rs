use vstd::prelude::*;
use crate::style::{close_error_message, open_error_message, position_prefix, push_position, styled};
use crate::text::{decimal, push_char, push_decimal};

verus! {

/// Errors that stop tokenization. Each names the line and column where the
/// offending lexeme starts.
#[derive(Debug, PartialEq)]
pub enum TokenizerError {
    /// The program does not fit in memory (256 bytes).
    ProgramTooLarge(Box<ProgramTooLarge>),
    /// A number greater than 255.
    LiteralValueTooLarge(Box<LiteralValueTooLarge>),
    /// A register denoter `R` without a number after it.
    MissingNumberAfterRegisterDenoter(Box<MissingNumberAfterRegisterDenoter>),
    /// A literal denoter `#` without a number after it.
    MissingNumberAfterLiteralDenoter(Box<MissingNumberAfterLiteralDenoter>),
    /// A register number of 13 or more.
    InvalidRegisterNumber(Box<InvalidRegisterNumber>),
    /// A label definition that does not follow a newline or a semicolon.
    InvalidLabelDefinitionLocation(Box<InvalidLabelDefinitionLocation>),
    /// A label defined a second time.
    DuplicateLabelDefinition(Box<DuplicateLabelDefinition>),
    /// A block comment without its closing `*/`.
    UnterminatedBlockComment(Box<UnterminatedBlockComment>),
    /// A `/` that begins neither `//` nor `/*`.
    InvalidCommentDenoter(Box<InvalidCommentDenoter>),
    /// A character that begins no token.
    UnexpectedCharacter(Box<UnexpectedCharacter>),
}

#[derive(Debug, PartialEq)]
pub struct ProgramTooLarge {
    pub line: usize,
    pub col: usize,
}

#[derive(Debug, PartialEq)]
pub struct LiteralValueTooLarge {
    pub value_string: String,
    pub line: usize,
    pub col: usize,
}

#[derive(Debug, PartialEq)]
pub struct MissingNumberAfterRegisterDenoter {
    pub line: usize,
    pub col: usize,
}

#[derive(Debug, PartialEq)]
pub struct MissingNumberAfterLiteralDenoter {
    pub line: usize,
    pub col: usize,
}

#[derive(Debug, PartialEq)]
pub struct InvalidRegisterNumber {
    pub value: u8,
    pub line: usize,
    pub col: usize,
}

#[derive(Debug, PartialEq)]
pub struct InvalidLabelDefinitionLocation {
    pub label_name: String,
    pub line: usize,
    pub col: usize,
}

#[derive(Debug, PartialEq)]
pub struct DuplicateLabelDefinition {
    pub label_name: String,
    pub line: usize,
    pub col: usize,
}

#[derive(Debug, PartialEq)]
pub struct UnterminatedBlockComment {
    pub line: usize,
    pub col: usize,
}

#[derive(Debug, PartialEq)]
pub struct InvalidCommentDenoter {
    pub line: usize,
    pub col: usize,
}

#[derive(Debug, PartialEq)]
pub struct UnexpectedCharacter {
    pub char: char,
    pub line: usize,
    pub col: usize,
}

/// The mathematical value of a tokenizer error.
pub enum TokenizerErrorView {
    ProgramTooLarge { line: int, col: int },
    LiteralValueTooLarge { value_string: Seq<char>, line: int, col: int },
    MissingNumberAfterRegisterDenoter { line: int, col: int },
    MissingNumberAfterLiteralDenoter { line: int, col: int },
    InvalidRegisterNumber { value: u8, line: int, col: int },
    InvalidLabelDefinitionLocation { label_name: Seq<char>, line: int, col: int },
    DuplicateLabelDefinition { label_name: Seq<char>, line: int, col: int },
    UnterminatedBlockComment { line: int, col: int },
    InvalidCommentDenoter { line: int, col: int },
    UnexpectedCharacter { ch: char, line: int, col: int },
}

impl View for TokenizerError {
    type V = TokenizerErrorView;

    open spec fn view(&self) -> TokenizerErrorView {
        match self {
            TokenizerError::ProgramTooLarge(e) => TokenizerErrorView::ProgramTooLarge {
                line: e.line as int,
                col: e.col as int,
            },
            TokenizerError::LiteralValueTooLarge(e) => TokenizerErrorView::LiteralValueTooLarge {
                value_string: e.value_string@,
                line: e.line as int,
                col: e.col as int,
            },
            TokenizerError::MissingNumberAfterRegisterDenoter(e) => TokenizerErrorView::MissingNumberAfterRegisterDenoter {
                line: e.line as int,
                col: e.col as int,
            },
            TokenizerError::MissingNumberAfterLiteralDenoter(e) => TokenizerErrorView::MissingNumberAfterLiteralDenoter {
                line: e.line as int,
                col: e.col as int,
            },
            TokenizerError::InvalidRegisterNumber(e) => TokenizerErrorView::InvalidRegisterNumber {
                value: e.value,
                line: e.line as int,
                col: e.col as int,
            },
            TokenizerError::InvalidLabelDefinitionLocation(e) => TokenizerErrorView::InvalidLabelDefinitionLocation {
                label_name: e.label_name@,
                line: e.line as int,
                col: e.col as int,
            },
            TokenizerError::DuplicateLabelDefinition(e) => TokenizerErrorView::DuplicateLabelDefinition {
                label_name: e.label_name@,
                line: e.line as int,
                col: e.col as int,
            },
            TokenizerError::UnterminatedBlockComment(e) => TokenizerErrorView::UnterminatedBlockComment {
                line: e.line as int,
                col: e.col as int,
            },
            TokenizerError::InvalidCommentDenoter(e) => TokenizerErrorView::InvalidCommentDenoter {
                line: e.line as int,
                col: e.col as int,
            },
            TokenizerError::UnexpectedCharacter(e) => TokenizerErrorView::UnexpectedCharacter {
                ch: e.char,
                line: e.line as int,
                col: e.col as int,
            },
        }
    }
}

impl TokenizerErrorView {
    /// The text of the error message.
    pub open spec fn spec_message(self) -> Seq<char> {
        match self {
            TokenizerErrorView::ProgramTooLarge { line, col } => position_prefix(line as nat, col as nat)
                + "Program exceeds memory limit (256 bytes)"@,
            TokenizerErrorView::LiteralValueTooLarge { value_string, line, col } => position_prefix(line as nat, col as nat)
                + "Literal value '"@ + value_string + "' too large (max value of 255)"@,
            TokenizerErrorView::MissingNumberAfterRegisterDenoter { line, col } => position_prefix(line as nat, col as nat)
                + "Missing number after register denoter 'R'"@,
            TokenizerErrorView::MissingNumberAfterLiteralDenoter { line, col } => position_prefix(line as nat, col as nat)
                + "Missing number after literal denoter '#'"@,
            TokenizerErrorView::InvalidRegisterNumber { value, line, col } => position_prefix(line as nat, col as nat)
                + "Invalid register 'R"@ + decimal(value as nat) + "' (must be in range 0-12 inclusive)"@,
            TokenizerErrorView::InvalidLabelDefinitionLocation { label_name, line, col } => position_prefix(line as nat, col as nat)
                + "Invalid label definition location for label '"@ + label_name
                + "', labels may only appear after line delimiters (newline or ';')"@,
            TokenizerErrorView::DuplicateLabelDefinition { label_name, line, col } => position_prefix(line as nat, col as nat)
                + "Definition for label '"@ + label_name + "' already exists"@,
            TokenizerErrorView::UnterminatedBlockComment { line, col } => position_prefix(line as nat, col as nat)
                + "Unterminated block comment begins here"@,
            TokenizerErrorView::InvalidCommentDenoter { line, col } => position_prefix(line as nat, col as nat)
                + "Expected '//' or '/*' for comment, not '/'"@,
            TokenizerErrorView::UnexpectedCharacter { ch, line, col } => position_prefix(line as nat, col as nat)
                + "Unexpected character: '"@ + seq![ch] + "'"@,
        }
    }
}

impl TokenizerError {
    /// The error message as it is shown: red and bold.
    pub fn to_display_string(&self) -> (res: String)
        ensures
            res@ == styled(self@.spec_message()),
    {
        let mut s = open_error_message();
        match self {
            TokenizerError::ProgramTooLarge(e) => {
                push_position(&mut s, e.line, e.col);
                s.append("Program exceeds memory limit (256 bytes)");
            },
            TokenizerError::LiteralValueTooLarge(e) => {
                push_position(&mut s, e.line, e.col);
                s.append("Literal value '");
                s.append(e.value_string.as_str());
                s.append("' too large (max value of 255)");
            },
            TokenizerError::MissingNumberAfterRegisterDenoter(e) => {
                push_position(&mut s, e.line, e.col);
                s.append("Missing number after register denoter 'R'");
            },
            TokenizerError::MissingNumberAfterLiteralDenoter(e) => {
                push_position(&mut s, e.line, e.col);
                s.append("Missing number after literal denoter '#'");
            },
            TokenizerError::InvalidRegisterNumber(e) => {
                push_position(&mut s, e.line, e.col);
                s.append("Invalid register 'R");
                push_decimal(&mut s, e.value as usize);
                s.append("' (must be in range 0-12 inclusive)");
            },
            TokenizerError::InvalidLabelDefinitionLocation(e) => {
                push_position(&mut s, e.line, e.col);
                s.append("Invalid label definition location for label '");
                s.append(e.label_name.as_str());
                s.append("', labels may only appear after line delimiters (newline or ';')");
            },
            TokenizerError::DuplicateLabelDefinition(e) => {
                push_position(&mut s, e.line, e.col);
                s.append("Definition for label '");
                s.append(e.label_name.as_str());
                s.append("' already exists");
            },
            TokenizerError::UnterminatedBlockComment(e) => {
                push_position(&mut s, e.line, e.col);
                s.append("Unterminated block comment begins here");
            },
            TokenizerError::InvalidCommentDenoter(e) => {
                push_position(&mut s, e.line, e.col);
                s.append("Expected '//' or '/*' for comment, not '/'");
            },
            TokenizerError::UnexpectedCharacter(e) => {
                push_position(&mut s, e.line, e.col);
                s.append("Unexpected character: '");
                push_char(&mut s, e.char);
                s.append("'");
            },
        }
        close_error_message(&mut s);
        assert(s@ =~= styled(self@.spec_message()));
        s
    }
}

} // verus!
