use vstd::prelude::*;
use crate::operand::Operand;
use crate::source_opcode::SourceOpcode;
use crate::text::{decimal, push_decimal};

verus! {

/// The kinds of token that the tokenizer produces.
#[derive(Debug, Clone, Copy, PartialEq, Eq, Structural)]
pub enum TokenKind {
    Operand(Operand),
    Opcode(SourceOpcode),
    Newline,
    Semicolon,
    Comma,
    LabelDefinition,
}

/// A token: its kind, the source text it was read from, and the line and
/// column (both counted from 1) where it starts.
#[derive(Debug, Clone, PartialEq)]
pub struct Token {
    pub kind: TokenKind,
    pub lexeme: String,
    pub line: usize,
    pub col: usize,
}

/// A position in source text: `idx` counts the characters before it.
#[derive(Debug, Clone, Copy, PartialEq, Eq, Structural)]
pub struct TokenPosition {
    pub idx: usize,
    pub line: usize,
    pub col: usize,
}

/// The mathematical value of a token.
pub struct TokenView {
    pub kind: TokenKind,
    pub lexeme: Seq<char>,
    pub line: int,
    pub col: int,
}

impl View for Token {
    type V = TokenView;

    open spec fn view(&self) -> TokenView {
        TokenView { kind: self.kind, lexeme: self.lexeme@, line: self.line as int, col: self.col as int }
    }
}

/// A position in mathematical terms.
pub struct SpecPos {
    pub idx: int,
    pub line: int,
    pub col: int,
}

impl View for TokenPosition {
    type V = SpecPos;

    open spec fn view(&self) -> SpecPos {
        SpecPos { idx: self.idx as int, line: self.line as int, col: self.col as int }
    }
}

/// The values of a sequence of tokens.
pub open spec fn token_views(tokens: Seq<Token>) -> Seq<TokenView> {
    tokens.map_values(|t: Token| t@)
}

/// The number of tokens that occupy a byte of the program.
pub open spec fn byte_count(tokens: Seq<TokenView>) -> int
    decreases tokens.len(),
{
    if tokens.len() == 0 {
        0
    } else {
        byte_count(tokens.drop_last()) + if tokens.last().kind.occupies_byte() {
            1int
        } else {
            0int
        }
    }
}

/// Index `j` begins a line of the token sequence: it is the first index, or
/// it follows a line delimiter.
pub open spec fn starts_line(tokens: Seq<TokenView>, j: int) -> bool {
    j == 0 || tokens[j - 1].kind == TokenKind::Newline || tokens[j - 1].kind == TokenKind::Semicolon
}

/// There are no more counted tokens than tokens.
pub proof fn lemma_byte_count_bounds(s: Seq<TokenView>)
    ensures
        0 <= byte_count(s) <= s.len(),
    decreases s.len(),
{
    if s.len() > 0 {
        lemma_byte_count_bounds(s.drop_last());
    }
}

/// Counting splits over concatenation.
pub proof fn lemma_byte_count_concat(x: Seq<TokenView>, y: Seq<TokenView>)
    ensures
        byte_count(x + y) == byte_count(x) + byte_count(y),
    decreases y.len(),
{
    if y.len() == 0 {
        assert(x + y =~= x);
    } else {
        assert((x + y).drop_last() =~= x + y.drop_last());
        lemma_byte_count_concat(x, y.drop_last());
    }
}

/// Counting a range that is split at `b`.
pub proof fn lemma_byte_count_split(s: Seq<TokenView>, a: int, b: int, c: int)
    requires
        0 <= a <= b <= c <= s.len(),
    ensures
        byte_count(s.subrange(a, c)) == byte_count(s.subrange(a, b)) + byte_count(s.subrange(b, c)),
{
    assert(s.subrange(a, c) =~= s.subrange(a, b) + s.subrange(b, c));
    lemma_byte_count_concat(s.subrange(a, b), s.subrange(b, c));
}

/// Counting a range of one token.
pub proof fn lemma_byte_count_one(s: Seq<TokenView>, a: int)
    requires
        0 <= a < s.len(),
    ensures
        byte_count(s.subrange(a, a + 1)) == if s[a].kind.occupies_byte() {
            1int
        } else {
            0int
        },
{
    let r = s.subrange(a, a + 1);
    assert(r.drop_last() =~= Seq::<TokenView>::empty());
    assert(byte_count(r.drop_last()) == 0);
    assert(r.last() == s[a]);
}

impl TokenPosition {
    /// The start of a text: nothing before it, line 1, column 1.
    pub fn default() -> (res: Self)
        ensures
            res == (TokenPosition { idx: 0, line: 1, col: 1 }),
    {
        Self { idx: 0, line: 1, col: 1 }
    }
}

impl Operand {
    /// How the operand is displayed.
    pub open spec fn spec_display(self) -> Seq<char> {
        match self {
            Operand::Literal(v) => "#"@ + decimal(v as nat) + " (Literal)"@,
            Operand::Register(v) => "R"@ + decimal(v as nat) + " (Register)"@,
            Operand::MemoryRef(v) => decimal(v as nat) + " (Memory Reference)"@,
            Operand::Label => "Label"@,
        }
    }

    /// How the operand is written in messages.
    pub fn to_display_string(&self) -> (res: String)
        ensures
            res@ == self.spec_display(),
    {
        match self {
            Operand::Literal(v) => {
                let mut s = String::from_str("#");
                push_decimal(&mut s, *v as usize);
                s.append(" (Literal)");
                s
            },
            Operand::Register(v) => {
                let mut s = String::from_str("R");
                push_decimal(&mut s, *v as usize);
                s.append(" (Register)");
                s
            },
            Operand::MemoryRef(v) => {
                let mut s = String::new();
                push_decimal(&mut s, *v as usize);
                s.append(" (Memory Reference)");
                assert(s@ =~= self.spec_display());
                s
            },
            Operand::Label => String::from_str("Label"),
        }
    }
}

impl TokenKind {
    /// Opcodes and operands are the tokens that occupy a byte of the program.
    pub open spec fn occupies_byte(self) -> bool {
        self is Opcode || self is Operand
    }

    /// How the token kind is displayed.
    pub open spec fn spec_display(self) -> Seq<char> {
        match self {
            TokenKind::Operand(o) => o.spec_display(),
            TokenKind::Opcode(op) => op.spec_name(),
            TokenKind::Newline => "newline"@,
            TokenKind::Semicolon => "semicolon"@,
            TokenKind::Comma => "comma"@,
            TokenKind::LabelDefinition => "label definition"@,
        }
    }

    /// How the token kind is written in messages.
    pub fn to_display_string(&self) -> (res: String)
        ensures
            res@ == self.spec_display(),
    {
        match self {
            TokenKind::Operand(o) => o.to_display_string(),
            TokenKind::Opcode(op) => String::from_str(op.name()),
            TokenKind::Newline => String::from_str("newline"),
            TokenKind::Semicolon => String::from_str("semicolon"),
            TokenKind::Comma => String::from_str("comma"),
            TokenKind::LabelDefinition => String::from_str("label definition"),
        }
    }
}

impl TokenView {
    /// How a token is quoted in messages: its text in single quotes, or
    /// `'newline'` for a newline.
    pub open spec fn debug_repr(self) -> Seq<char> {
        match self.kind {
            TokenKind::Newline => "'newline'"@,
            _ => "'"@ + self.lexeme + "'"@,
        }
    }
}

impl Token {
    pub fn new(kind: TokenKind, lexeme: &str, line: usize, col: usize) -> (res: Self)
        ensures
            res@ == (TokenView { kind, lexeme: lexeme@, line: line as int, col: col as int }),
    {
        Self { kind, lexeme: String::from_str(lexeme), line, col }
    }

    /// A copy of the token.
    pub fn duplicate(&self) -> (res: Self)
        ensures
            res@ == self@,
    {
        Token { kind: self.kind, lexeme: self.lexeme.clone(), line: self.line, col: self.col }
    }

    /// How the token is quoted in messages.
    pub fn get_token_debug_repr(&self) -> (res: String)
        ensures
            res@ == self@.debug_repr(),
    {
        match self.kind {
            TokenKind::Newline => String::from_str("'newline'"),
            _ => {
                let mut s = String::from_str("'");
                s.append(self.lexeme.as_str());
                s.append("'");
                s
            },
        }
    }
}

} // verus!
