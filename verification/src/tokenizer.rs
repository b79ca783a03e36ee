use vstd::prelude::*;
use crate::interpreter::REGISTER_COUNT;
use crate::operand::Operand;
use crate::source_opcode::SourceOpcode;
use crate::text::{
    char_is_alphabetic, chars_eq_str, decimal_value, is_alphabetic, is_whitespace, parse_digits_u8,
    spec_is_digit, spec_is_whitespace, str_to_chars, string_from_chars,
};
use crate::token::{SpecPos, Token, TokenKind, TokenPosition, TokenView, byte_count, starts_line, token_views};
use crate::tokenizer_error::{
    DuplicateLabelDefinition, InvalidCommentDenoter, InvalidLabelDefinitionLocation, InvalidRegisterNumber,
    LiteralValueTooLarge, MissingNumberAfterLiteralDenoter, MissingNumberAfterRegisterDenoter, ProgramTooLarge,
    TokenizerError, TokenizerErrorView, UnexpectedCharacter, UnterminatedBlockComment,
};

verus! {

/// Where a label was defined: the program byte that follows it, and the
/// line and column of the definition.
#[derive(Debug, Clone, Copy, PartialEq, Eq, Structural)]
pub struct LabelDefinition {
    pub byte: u8,
    pub line: usize,
    pub col: usize,
}

/// The mathematical value of a label definition.
pub struct LabelView {
    pub byte: u8,
    pub line: int,
    pub col: int,
}

impl View for LabelDefinition {
    type V = LabelView;

    open spec fn view(&self) -> LabelView {
        LabelView { byte: self.byte, line: self.line as int, col: self.col as int }
    }
}

/// The values of a table of label definitions, in order of definition.
pub open spec fn label_views(labels: Seq<(String, LabelDefinition)>) -> Seq<(Seq<char>, LabelView)> {
    labels.map_values(|e: (String, LabelDefinition)| (e.0@, e.1@))
}

/// Whether a table holds a definition of `name`.
pub open spec fn defines(labels: Seq<(Seq<char>, LabelView)>, name: Seq<char>) -> bool {
    exists|k: int| 0 <= k < labels.len() && (#[trigger] labels[k]).0 == name
}

// ---------------------------------------------------------------------------
// The lexical rules, stated over the characters of the input.

/// The position after the character `c`: a newline starts the next line, a
/// tab advances the column by the tab size, anything else by one.
pub open spec fn advance(p: SpecPos, c: char, tab: int) -> SpecPos {
    if c == '\n' {
        SpecPos { idx: p.idx + 1, line: p.line + 1, col: 1 }
    } else if c == '\t' {
        SpecPos { idx: p.idx + 1, line: p.line, col: p.col + tab }
    } else {
        SpecPos { idx: p.idx + 1, line: p.line, col: p.col + 1 }
    }
}

/// The position reached from `p` by reading the input up to index `to`.
pub open spec fn advance_to(p: SpecPos, input: Seq<char>, to: int, tab: int) -> SpecPos
    decreases to - p.idx,
{
    if p.idx >= to {
        p
    } else {
        advance_to(advance(p, input[p.idx], tab), input, to, tab)
    }
}

/// The end of the run of decimal digits that starts at `i`.
pub open spec fn digit_run_end(input: Seq<char>, i: int) -> int
    decreases input.len() - i,
{
    if 0 <= i < input.len() && spec_is_digit(input[i]) {
        digit_run_end(input, i + 1)
    } else {
        i
    }
}

/// Characters that continue an identifier: alphabetic ones and `_`. Of the
/// ASCII characters only the letters are alphabetic.
pub open spec fn is_identifier_char(c: char) -> bool {
    is_identifier_start(c) || ('\u{7f}' < c && char_is_alphabetic(c))
}

/// Characters that start an identifier.
pub open spec fn is_identifier_start(c: char) -> bool {
    ('a' <= c <= 'z') || ('A' <= c <= 'Z') || c == '_'
}

/// The end of the identifier that starts at `i`.
pub open spec fn identifier_end(input: Seq<char>, i: int) -> int
    decreases input.len() - i,
{
    if 0 <= i < input.len() && is_identifier_char(input[i]) {
        identifier_end(input, i + 1)
    } else {
        i
    }
}

/// The index of the first newline at or after `i` (or the end of input).
pub open spec fn line_end(input: Seq<char>, i: int) -> int
    decreases input.len() - i,
{
    if 0 <= i < input.len() && input[i] != '\n' {
        line_end(input, i + 1)
    } else {
        i
    }
}

/// The index just past the first `*/` that starts at or after `i`.
pub open spec fn block_comment_end(input: Seq<char>, i: int) -> Option<int>
    decreases input.len() - i,
{
    if i < 0 || i >= input.len() {
        None
    } else if input[i] == '*' && i + 1 < input.len() && input[i + 1] == '/' {
        Some(i + 2)
    } else {
        block_comment_end(input, i + 1)
    }
}

/// The state of tokenization: what has been produced so far, where the
/// current lexeme starts (`prev`) and how far the input has been read (`cur`).
pub struct LexState {
    pub tokens: Seq<TokenView>,
    pub labels: Seq<(Seq<char>, LabelView)>,
    pub program_bytes: int,
    pub prev: SpecPos,
    pub cur: SpecPos,
}

/// What a successful tokenization produces.
pub struct TokenizedProgram {
    pub tokens: Seq<TokenView>,
    pub labels: Seq<(Seq<char>, LabelView)>,
    pub program_bytes: int,
}

pub open spec fn start_pos() -> SpecPos {
    SpecPos { idx: 0, line: 1, col: 1 }
}

pub open spec fn initial_state() -> LexState {
    LexState { tokens: Seq::empty(), labels: Seq::empty(), program_bytes: 0, prev: start_pos(), cur: start_pos() }
}

/// The text of the current lexeme; a newline is written `\n`.
pub open spec fn lexeme_of(input: Seq<char>, prev: SpecPos, cur: SpecPos) -> Seq<char> {
    let s = input.subrange(prev.idx, cur.idx);
    if s == seq!['\n'] {
        seq!['\\', 'n']
    } else {
        s
    }
}

/// Ends the current lexeme with a token of kind `kind`. Opcodes and operands
/// take a byte of program; there are 256 bytes.
pub open spec fn add_token(input: Seq<char>, st: LexState, kind: TokenKind) -> Result<LexState, TokenizerErrorView> {
    let tok = TokenView { kind, lexeme: lexeme_of(input, st.prev, st.cur), line: st.prev.line, col: st.prev.col };
    if kind.occupies_byte() && st.program_bytes == 256 {
        Err(TokenizerErrorView::ProgramTooLarge { line: tok.line, col: tok.col })
    } else {
        Ok(LexState {
            tokens: st.tokens.push(tok),
            program_bytes: if kind.occupies_byte() { st.program_bytes + 1 } else { st.program_bytes },
            prev: st.cur,
            ..st
        })
    }
}

/// Label definitions may only follow a line delimiter or begin the text.
pub open spec fn label_definition_allowed(tokens: Seq<TokenView>) -> bool {
    tokens.len() == 0 || tokens.last().kind == TokenKind::Newline || tokens.last().kind == TokenKind::Semicolon
}

/// An identifier: a register, an opcode, a label definition or a label operand.
pub open spec fn lex_identifier(input: Seq<char>, tab: int, st: LexState) -> Result<LexState, TokenizerErrorView> {
    let i = st.cur.idx;
    let c = input[i];
    let prev = st.prev;
    let j = identifier_end(input, i);
    let ident = input.subrange(i, j);
    if ident == "R"@ {
        let k = digit_run_end(input, j);
        let digits = input.subrange(j, k);
        if k == j {
            Err(TokenizerErrorView::MissingNumberAfterRegisterDenoter { line: prev.line, col: prev.col })
        } else if decimal_value(digits) > 255 {
            Err(TokenizerErrorView::LiteralValueTooLarge { value_string: digits, line: prev.line, col: prev.col })
        } else if decimal_value(digits) >= REGISTER_COUNT {
            Err(TokenizerErrorView::InvalidRegisterNumber {
                value: decimal_value(digits) as u8,
                line: prev.line,
                col: prev.col,
            })
        } else {
            add_token(
                input,
                LexState { cur: advance_to(st.cur, input, k, tab), ..st },
                TokenKind::Operand(Operand::Register(decimal_value(digits) as u8)),
            )
        }
    } else if SourceOpcode::spec_from_name(ident) is Some {
        add_token(
            input,
            LexState { cur: advance_to(st.cur, input, j, tab), ..st },
            TokenKind::Opcode(SourceOpcode::spec_from_name(ident)->0),
        )
    } else if j < input.len() && input[j] == ':' {
        if !label_definition_allowed(st.tokens) {
            Err(TokenizerErrorView::InvalidLabelDefinitionLocation { label_name: ident, line: prev.line, col: prev.col })
        } else if defines(st.labels, ident) {
            Err(TokenizerErrorView::DuplicateLabelDefinition { label_name: ident, line: prev.line, col: prev.col })
        } else {
            Ok(LexState {
                labels: st.labels.push(
                    (ident, LabelView { byte: (st.program_bytes % 256) as u8, line: prev.line, col: prev.col }),
                ),
                cur: advance_to(st.cur, input, j + 1, tab),
                ..st
            })
        }
    } else {
        add_token(
            input,
            LexState { cur: advance_to(st.cur, input, j, tab), ..st },
            TokenKind::Operand(Operand::Label),
        )
    }
}

/// A literal: `#` followed by a number.
pub open spec fn lex_literal(input: Seq<char>, tab: int, st: LexState) -> Result<LexState, TokenizerErrorView> {
    let i = st.cur.idx;
    let c = input[i];
    let prev = st.prev;
    let j = digit_run_end(input, i + 1);
    let digits = input.subrange(i + 1, j);
    if j == i + 1 {
        Err(TokenizerErrorView::MissingNumberAfterLiteralDenoter { line: prev.line, col: prev.col })
    } else if decimal_value(digits) > 255 {
        Err(TokenizerErrorView::LiteralValueTooLarge { value_string: digits, line: prev.line, col: prev.col })
    } else {
        add_token(
            input,
            LexState { cur: advance_to(st.cur, input, j, tab), ..st },
            TokenKind::Operand(Operand::Literal(decimal_value(digits) as u8)),
        )
    }
}

/// A comment: `//` up to the end of the line, or `/*` up to the first `*/`
/// that follows it (the two never share a character).
pub open spec fn lex_comment(input: Seq<char>, tab: int, st: LexState) -> Result<LexState, TokenizerErrorView> {
    let i = st.cur.idx;
    let c = input[i];
    let prev = st.prev;
    if i + 1 < input.len() && input[i + 1] == '/' {
        let p = advance_to(st.cur, input, line_end(input, i + 2), tab);
        Ok(LexState { prev: p, cur: p, ..st })
    } else if i + 1 < input.len() && input[i + 1] == '*' {
        match block_comment_end(input, i + 2) {
            None => Err(TokenizerErrorView::UnterminatedBlockComment { line: prev.line, col: prev.col }),
            Some(k) => {
                let p = advance_to(st.cur, input, k, tab);
                Ok(LexState { prev: p, cur: p, ..st })
            },
        }
    } else {
        Err(TokenizerErrorView::InvalidCommentDenoter { line: prev.line, col: prev.col })
    }
}

/// Reads one lexeme (or one whitespace character, or one comment) at `st.cur`.
pub open spec fn lex_step(input: Seq<char>, tab: int, st: LexState) -> Result<LexState, TokenizerErrorView> {
    let i = st.cur.idx;
    let c = input[i];
    let prev = st.prev;
    if c != '\n' && spec_is_whitespace(c) {
        let p = advance(st.cur, c, tab);
        Ok(LexState { prev: p, cur: p, ..st })
    } else if c == '\n' {
        add_token(input, LexState { cur: advance(st.cur, c, tab), ..st }, TokenKind::Newline)
    } else if c == ';' {
        add_token(input, LexState { cur: advance(st.cur, c, tab), ..st }, TokenKind::Semicolon)
    } else if c == ',' {
        add_token(input, LexState { cur: advance(st.cur, c, tab), ..st }, TokenKind::Comma)
    } else if spec_is_digit(c) {
        let j = digit_run_end(input, i);
        let digits = input.subrange(i, j);
        if decimal_value(digits) > 255 {
            Err(TokenizerErrorView::LiteralValueTooLarge { value_string: digits, line: prev.line, col: prev.col })
        } else {
            add_token(
                input,
                LexState { cur: advance_to(st.cur, input, j, tab), ..st },
                TokenKind::Operand(Operand::MemoryRef(decimal_value(digits) as u8)),
            )
        }
    } else if is_identifier_start(c) {
        lex_identifier(input, tab, st)
    } else if c == '#' {
        lex_literal(input, tab, st)
    } else if c == '/' {
        lex_comment(input, tab, st)
    } else {
        Err(TokenizerErrorView::UnexpectedCharacter { ch: c, line: prev.line, col: prev.col })
    }
}

pub proof fn lemma_advance_to(p: SpecPos, input: Seq<char>, to: int, tab: int)
    requires
        p.idx <= to,
    ensures
        advance_to(p, input, to, tab).idx == to,
    decreases to - p.idx,
{
    if p.idx < to {
        lemma_advance_to(advance(p, input[p.idx], tab), input, to, tab);
    }
}

pub proof fn lemma_run_ends(input: Seq<char>, i: int)
    requires
        0 <= i <= input.len(),
    ensures
        i <= digit_run_end(input, i) <= input.len(),
        i <= identifier_end(input, i) <= input.len(),
        i <= line_end(input, i) <= input.len(),
        block_comment_end(input, i) matches Some(k) ==> i + 2 <= k <= input.len(),
    decreases input.len() - i,
{
    if i < input.len() {
        lemma_run_ends(input, i + 1);
    }
}

/// Each step reads at least one character.
pub proof fn lemma_step_progress(input: Seq<char>, tab: int, st: LexState)
    requires
        0 <= st.cur.idx < input.len(),
    ensures
        lex_step(input, tab, st) matches Ok(st2) ==> st.cur.idx < st2.cur.idx <= input.len(),
{
    let i = st.cur.idx;
    lemma_run_ends(input, i);
    lemma_run_ends(input, i + 1);
    let j = identifier_end(input, i);
    lemma_run_ends(input, j);
    lemma_advance_to(st.cur, input, digit_run_end(input, i), tab);
    lemma_advance_to(st.cur, input, j, tab);
    lemma_advance_to(st.cur, input, digit_run_end(input, j), tab);
    lemma_advance_to(st.cur, input, digit_run_end(input, i + 1), tab);
    if j < input.len() {
        lemma_advance_to(st.cur, input, j + 1, tab);
    }
    if i + 2 <= input.len() {
        lemma_run_ends(input, i + 2);
        lemma_advance_to(st.cur, input, line_end(input, i + 2), tab);
    }
    if let Some(k) = block_comment_end(input, i + 2) {
        lemma_advance_to(st.cur, input, k, tab);
    }
}

/// Tokenization from state `st` to the end of the input.
pub open spec fn lex_run(input: Seq<char>, tab: int, st: LexState) -> Result<TokenizedProgram, TokenizerErrorView>
    decreases input.len() - st.cur.idx,
{
    if st.cur.idx < 0 || st.cur.idx >= input.len() {
        Ok(TokenizedProgram { tokens: st.tokens, labels: st.labels, program_bytes: st.program_bytes })
    } else {
        match lex_step(input, tab, st) {
            Err(e) => Err(e),
            Ok(st2) => {
                proof {
                    lemma_step_progress(input, tab, st);
                }
                lex_run(input, tab, st2)
            },
        }
    }
}

/// The tokenization of a whole text with the given tab size.
pub open spec fn spec_tokenize(input: Seq<char>, tab: int) -> Result<TokenizedProgram, TokenizerErrorView> {
    lex_run(input, tab, initial_state())
}

pub proof fn lemma_advance_to_step(p: SpecPos, input: Seq<char>, k: int, tab: int)
    requires
        p.idx <= k,
    ensures
        advance_to(p, input, k + 1, tab) == advance(advance_to(p, input, k, tab), input[k], tab),
    decreases k - p.idx,
{
    reveal_with_fuel(advance_to, 2);
    if p.idx < k {
        lemma_advance_to_step(advance(p, input[p.idx], tab), input, k, tab);
    }
}

pub proof fn lemma_advance_to_trans(p: SpecPos, input: Seq<char>, j: int, k: int, tab: int)
    requires
        p.idx <= j <= k,
    ensures
        advance_to(advance_to(p, input, j, tab), input, k, tab) == advance_to(p, input, k, tab),
    decreases j - p.idx,
{
    if p.idx < j {
        lemma_advance_to_trans(advance(p, input[p.idx], tab), input, j, k, tab);
    }
}

/// Positions that can be reached by reading `idx` characters: a tab moves at
/// most 255 columns.
pub open spec fn bounded(p: SpecPos) -> bool {
    0 <= p.idx && 1 <= p.line <= p.idx + 1 && 1 <= p.col <= 255 * p.idx + 1
}

/// Splits source text into tokens, collecting label definitions and counting
/// the bytes that the program will occupy.
#[derive(Debug)]
pub struct Tokenizer {
    pub tokens: Vec<Token>,
    pub labels: Vec<(String, LabelDefinition)>,
    pub program_bytes: usize,
    pub input: Vec<char>,
    pub prev_pos: TokenPosition,
    pub current_pos: TokenPosition,
    pub tabsize: usize,
}

impl Tokenizer {
    /// The tokenization state this tokenizer is in.
    pub open spec fn state(self) -> LexState {
        LexState {
            tokens: token_views(self.tokens@),
            labels: label_views(self.labels@),
            program_bytes: self.program_bytes as int,
            prev: self.prev_pos@,
            cur: self.current_pos@,
        }
    }

    pub open spec fn wf(self) -> bool {
        &&& self.input@.len() * 255 < usize::MAX
        &&& self.tabsize <= 255
        &&& bounded(self.prev_pos@)
        &&& bounded(self.current_pos@)
        &&& self.prev_pos.idx <= self.current_pos.idx <= self.input@.len()
        &&& self.program_bytes <= 256
    }

    /// `new` is what `old` became, returning `res`, where the rules say `r`.
    pub open spec fn outcome(
        old: Tokenizer,
        new: Tokenizer,
        res: Result<(), TokenizerError>,
        r: Result<LexState, TokenizerErrorView>,
    ) -> bool {
        &&& new.input@ == old.input@
        &&& new.tabsize == old.tabsize
        &&& match r {
            Ok(st) => res is Ok && new.state() == st && new.wf(),
            Err(e) => res matches Err(x) && x@ == e,
        }
    }

    /// `new` is `old` after one tokenization step, which returned `res`.
    pub open spec fn stepped(old: Tokenizer, new: Tokenizer, res: Result<(), TokenizerError>) -> bool {
        Self::outcome(old, new, res, lex_step(old.input@, old.tabsize as int, old.state()))
    }

    /// Tokenizes `input`; a tab advances the column by `tabsize`.
    pub fn tokenize(input: &str, tabsize: u8) -> (res: Result<Self, TokenizerError>)
        requires
            input@.len() * 255 < usize::MAX,
        ensures
            match spec_tokenize(input@, tabsize as int) {
                Ok(p) => res matches Ok(t) && token_views(t.tokens@) == p.tokens && label_views(t.labels@)
                    == p.labels && t.program_bytes == p.program_bytes,
                Err(e) => res matches Err(x) && x@ == e,
            },
    {
        let chars = str_to_chars(input);
        let mut tokenizer = Tokenizer {
            tokens: Vec::new(),
            labels: Vec::new(),
            program_bytes: 0,
            input: chars,
            prev_pos: TokenPosition::default(),
            current_pos: TokenPosition::default(),
            tabsize: tabsize as usize,
        };
        proof {
            assert(token_views(tokenizer.tokens@) =~= Seq::<TokenView>::empty());
            assert(label_views(tokenizer.labels@) =~= Seq::<(Seq<char>, LabelView)>::empty());
            assert(tokenizer.state() == initial_state());
        }
        match tokenizer.interal_tokenize() {
            Ok(()) => Ok(tokenizer),
            Err(e) => Err(e),
        }
    }

    /// Reads the whole input, one lexeme at a time.
    fn interal_tokenize(&mut self) -> (res: Result<(), TokenizerError>)
        requires
            old(self).wf(),
        ensures
            final(self).input@ == old(self).input@,
            final(self).tabsize == old(self).tabsize,
            match lex_run(old(self).input@, old(self).tabsize as int, old(self).state()) {
                Ok(p) => res is Ok && token_views(final(self).tokens@) == p.tokens && label_views(
                    final(self).labels@,
                ) == p.labels && final(self).program_bytes == p.program_bytes,
                Err(e) => res matches Err(x) && x@ == e,
            },
    {
        let ghost input = self.input@;
        let ghost tab = self.tabsize as int;
        let ghost goal = lex_run(input, tab, self.state());
        while self.current_pos.idx < self.input.len()
            invariant
                self.wf(),
                self.input@ == input,
                self.tabsize as int == tab,
                input == old(self).input@,
                tab == old(self).tabsize as int,
                goal == lex_run(old(self).input@, old(self).tabsize as int, old(self).state()),
                goal == lex_run(input, tab, self.state()),
            decreases input.len() - self.current_pos.idx,
        {
            let ghost before = *self;
            proof {
                lemma_step_progress(input, tab, self.state());
            }
            let c = self.input[self.current_pos.idx];
            let r = if c != '\n' && is_whitespace(c) {
                self.next();
                self.prev_pos = self.current_pos;
                Ok(())
            } else if c == '\n' {
                self.add_single_char_token(TokenKind::Newline)
            } else if c == ';' {
                self.add_single_char_token(TokenKind::Semicolon)
            } else if c == ',' {
                self.add_single_char_token(TokenKind::Comma)
            } else if '0' <= c && c <= '9' {
                self.tokenize_memory_reference()
            } else if ('a' <= c && c <= 'z') || ('A' <= c && c <= 'Z') || c == '_' {
                self.tokenize_identifier()
            } else if c == '#' {
                self.tokenize_literal()
            } else if c == '/' {
                self.comment()
            } else {
                Err(
                    TokenizerError::UnexpectedCharacter(
                        Box::new(UnexpectedCharacter { char: c, line: self.prev_pos.line, col: self.prev_pos.col }),
                    ),
                )
            };
            assert(self.input@ == input);
            assert(Self::stepped(before, *self, r));
            match r {
                Ok(()) => {},
                Err(e) => {
                    return Err(e);
                },
            }
        }
        Ok(())
    }

    /// Reads the next character, moving the current position past it.
    fn next(&mut self) -> (c: char)
        requires
            old(self).wf(),
            old(self).current_pos.idx < old(self).input@.len(),
        ensures
            c == old(self).input@[old(self).current_pos.idx as int],
            final(self).current_pos@ == advance(old(self).current_pos@, c, old(self).tabsize as int),
            bounded(final(self).current_pos@),
            final(self).current_pos.idx <= final(self).input@.len(),
            final(self).input@ == old(self).input@,
            final(self).tabsize == old(self).tabsize,
            final(self).tokens@ == old(self).tokens@,
            final(self).labels@ == old(self).labels@,
            final(self).program_bytes == old(self).program_bytes,
            final(self).prev_pos == old(self).prev_pos,
    {
        let c = self.input[self.current_pos.idx];
        if c == '\n' {
            self.current_pos.line = self.current_pos.line + 1;
            self.current_pos.col = 1;
        } else if c == '\t' {
            self.current_pos.col = self.current_pos.col + self.tabsize;
        } else {
            self.current_pos.col = self.current_pos.col + 1;
        }
        self.current_pos.idx = self.current_pos.idx + 1;
        c
    }

    /// The next character, if any, without reading it.
    fn peek(&self) -> (res: Option<char>)
        requires
            self.wf(),
        ensures
            self.current_pos.idx < self.input@.len() ==> res == Some(self.input@[self.current_pos.idx as int]),
            self.current_pos.idx >= self.input@.len() ==> res is None,
    {
        if self.current_pos.idx < self.input.len() {
            Some(self.input[self.current_pos.idx])
        } else {
            None
        }
    }

    /// Reads the run of decimal digits at the current position.
    fn consume_digits(&mut self) -> (digits: Vec<char>)
        requires
            old(self).wf(),
        ensures
            digits@ == old(self).input@.subrange(
                old(self).current_pos.idx as int,
                digit_run_end(old(self).input@, old(self).current_pos.idx as int),
            ),
            forall|k: int| 0 <= k < digits@.len() ==> spec_is_digit(#[trigger] digits@[k]),
            final(self).current_pos@ == advance_to(
                old(self).current_pos@,
                old(self).input@,
                digit_run_end(old(self).input@, old(self).current_pos.idx as int),
                old(self).tabsize as int,
            ),
            final(self).current_pos.idx == digit_run_end(old(self).input@, old(self).current_pos.idx as int),
            final(self).wf(),
            final(self).input@ == old(self).input@,
            final(self).tabsize == old(self).tabsize,
            final(self).tokens@ == old(self).tokens@,
            final(self).labels@ == old(self).labels@,
            final(self).program_bytes == old(self).program_bytes,
            final(self).prev_pos == old(self).prev_pos,
    {
        let ghost start = self.current_pos@;
        let ghost input = self.input@;
        let ghost end = digit_run_end(input, start.idx);
        let mut digits: Vec<char> = Vec::new();
        proof {
            lemma_run_ends(input, start.idx);
        }
        loop
            invariant
                self.wf(),
                self.input@ == input,
                self.tabsize == old(self).tabsize,
                self.tokens@ == old(self).tokens@,
                self.labels@ == old(self).labels@,
                self.program_bytes == old(self).program_bytes,
                self.prev_pos == old(self).prev_pos,
                start == old(self).current_pos@,
                end == digit_run_end(input, start.idx),
                start.idx <= self.current_pos.idx <= end <= input.len(),
                digit_run_end(input, self.current_pos.idx as int) == end,
                self.current_pos@ == advance_to(start, input, self.current_pos.idx as int, self.tabsize as int),
                digits@ == input.subrange(start.idx, self.current_pos.idx as int),
                forall|k: int| 0 <= k < digits@.len() ==> spec_is_digit(#[trigger] digits@[k]),
            ensures
                self.wf(),
                self.input@ == input,
                self.tabsize == old(self).tabsize,
                self.tokens@ == old(self).tokens@,
                self.labels@ == old(self).labels@,
                self.program_bytes == old(self).program_bytes,
                self.prev_pos == old(self).prev_pos,
                self.current_pos.idx == end,
                self.current_pos@ == advance_to(start, input, end, self.tabsize as int),
                start == old(self).current_pos@,
                digits@ == input.subrange(start.idx, end),
                forall|k: int| 0 <= k < digits@.len() ==> spec_is_digit(#[trigger] digits@[k]),
            decreases input.len() - self.current_pos.idx,
        {
            match self.peek() {
                Some(c) => {
                    if !('0' <= c && c <= '9') {
                        break;
                    }
                },
                None => {
                    break;
                },
            }
            let ghost i = self.current_pos.idx as int;
            proof {
                lemma_advance_to_step(start, input, i, self.tabsize as int);
                lemma_run_ends(input, i + 1);
            }
            let c = self.next();
            digits.push(c);
            assert(digits@ =~= input.subrange(start.idx, self.current_pos.idx as int));
        }
        digits
    }

    /// Reads the identifier at the current position.
    fn consume_identifier(&mut self) -> (ident: Vec<char>)
        requires
            old(self).wf(),
        ensures
            ident@ == old(self).input@.subrange(
                old(self).current_pos.idx as int,
                identifier_end(old(self).input@, old(self).current_pos.idx as int),
            ),
            final(self).current_pos@ == advance_to(
                old(self).current_pos@,
                old(self).input@,
                identifier_end(old(self).input@, old(self).current_pos.idx as int),
                old(self).tabsize as int,
            ),
            final(self).current_pos.idx == identifier_end(old(self).input@, old(self).current_pos.idx as int),
            final(self).wf(),
            final(self).input@ == old(self).input@,
            final(self).tabsize == old(self).tabsize,
            final(self).tokens@ == old(self).tokens@,
            final(self).labels@ == old(self).labels@,
            final(self).program_bytes == old(self).program_bytes,
            final(self).prev_pos == old(self).prev_pos,
    {
        let ghost start = self.current_pos@;
        let ghost input = self.input@;
        let ghost end = identifier_end(input, start.idx);
        let mut ident: Vec<char> = Vec::new();
        proof {
            lemma_run_ends(input, start.idx);
        }
        loop
            invariant
                self.wf(),
                self.input@ == input,
                self.tabsize == old(self).tabsize,
                self.tokens@ == old(self).tokens@,
                self.labels@ == old(self).labels@,
                self.program_bytes == old(self).program_bytes,
                self.prev_pos == old(self).prev_pos,
                start == old(self).current_pos@,
                end == identifier_end(input, start.idx),
                start.idx <= self.current_pos.idx <= end <= input.len(),
                identifier_end(input, self.current_pos.idx as int) == end,
                self.current_pos@ == advance_to(start, input, self.current_pos.idx as int, self.tabsize as int),
                ident@ == input.subrange(start.idx, self.current_pos.idx as int),
            ensures
                self.wf(),
                self.input@ == input,
                self.tabsize == old(self).tabsize,
                self.tokens@ == old(self).tokens@,
                self.labels@ == old(self).labels@,
                self.program_bytes == old(self).program_bytes,
                self.prev_pos == old(self).prev_pos,
                self.current_pos.idx == end,
                self.current_pos@ == advance_to(start, input, end, self.tabsize as int),
                start == old(self).current_pos@,
                ident@ == input.subrange(start.idx, end),
            decreases input.len() - self.current_pos.idx,
        {
            match self.peek() {
                Some(c) => {
                    if !(is_alphabetic(c) || c == '_') {
                        break;
                    }
                },
                None => {
                    break;
                },
            }
            let ghost i = self.current_pos.idx as int;
            proof {
                lemma_advance_to_step(start, input, i, self.tabsize as int);
                lemma_run_ends(input, i + 1);
            }
            let c = self.next();
            ident.push(c);
            assert(ident@ =~= input.subrange(start.idx, self.current_pos.idx as int));
        }
        ident
    }

    /// Ends the current lexeme with a token of kind `kind`.
    fn add_token(&mut self, kind: TokenKind) -> (res: Result<(), TokenizerError>)
        requires
            old(self).wf(),
        ensures
            final(self).input@ == old(self).input@,
            final(self).tabsize == old(self).tabsize,
            match add_token(old(self).input@, old(self).state(), kind) {
                Ok(st) => res is Ok && final(self).state() == st && final(self).wf(),
                Err(e) => res matches Err(x) && x@ == e,
            },
    {
        let ghost input = self.input@;
        let from = self.prev_pos.idx;
        let to = self.current_pos.idx;
        let lexeme = if to == from + 1 && self.input[from] == '\n' {
            proof {
                reveal_strlit("\\n");
            }
            let s = String::from_str("\\n");
            assert(input.subrange(from as int, to as int) =~= seq!['\n']);
            assert(s@ =~= seq!['\\', 'n']);
            s
        } else {
            let s = string_from_chars(&self.input, from, to);
            assert(input.subrange(from as int, to as int) != seq!['\n']) by {
                if input.subrange(from as int, to as int) == seq!['\n'] {
                    assert(input.subrange(from as int, to as int).len() == 1);
                    assert(input.subrange(from as int, to as int)[0] == input[from as int]);
                }
            }
            s
        };
        let token = Token { kind, lexeme, line: self.prev_pos.line, col: self.prev_pos.col };
        let occupies = match kind {
            TokenKind::Opcode(_) | TokenKind::Operand(_) => true,
            _ => false,
        };
        self.tokens.push(token);
        if occupies {
            if self.program_bytes == 256 {
                let last = self.tokens.len() - 1;
                return Err(
                    TokenizerError::ProgramTooLarge(
                        Box::new(ProgramTooLarge { line: self.tokens[last].line, col: self.tokens[last].col }),
                    ),
                );
            }
            self.program_bytes = self.program_bytes + 1;
        }
        self.prev_pos = self.current_pos;
        proof {
            assert(token_views(self.tokens@) =~= token_views(old(self).tokens@).push(token@));
        }
        Ok(())
    }

    fn add_single_char_token(&mut self, kind: TokenKind) -> (res: Result<(), TokenizerError>)
        requires
            old(self).wf(),
            old(self).current_pos.idx < old(self).input@.len(),
        ensures
            final(self).input@ == old(self).input@,
            final(self).tabsize == old(self).tabsize,
            match add_token(
                old(self).input@,
                LexState {
                    cur: advance(
                        old(self).current_pos@,
                        old(self).input@[old(self).current_pos.idx as int],
                        old(self).tabsize as int,
                    ),
                    ..old(self).state()
                },
                kind,
            ) {
                Ok(st) => res is Ok && final(self).state() == st && final(self).wf(),
                Err(e) => res matches Err(x) && x@ == e,
            },
    {
        self.next();
        self.add_token(kind)
    }
    fn string_of(v: &Vec<char>) -> (res: String)
        ensures
            res@ == v@,
    {
        let res = string_from_chars(v, 0, v.len());
        assert(v@.subrange(0, v@.len() as int) =~= v@);
        res
    }

    /// Reads a run of decimal digits and the byte value it denotes: `None`
    /// when there are no digits, an error when the value exceeds 255.
    fn consume_u8(&mut self) -> (res: Option<Result<u8, TokenizerError>>)
        requires
            old(self).wf(),
        ensures
            ({
                let input = old(self).input@;
                let i = old(self).current_pos.idx as int;
                let j = digit_run_end(input, i);
                let digits = input.subrange(i, j);
                &&& final(self).current_pos@ == advance_to(old(self).current_pos@, input, j, old(self).tabsize as int)
                &&& final(self).current_pos.idx == j
                &&& (j == i ==> res is None)
                &&& (j > i && decimal_value(digits) > 255 ==> (res matches Some(Err(e)) && e@
                    == TokenizerErrorView::LiteralValueTooLarge {
                    value_string: digits,
                    line: old(self).prev_pos.line as int,
                    col: old(self).prev_pos.col as int,
                }))
                &&& (j > i && decimal_value(digits) <= 255 ==> res == Some(
                    Ok::<u8, TokenizerError>(decimal_value(digits) as u8),
                ))
            }),
            final(self).wf(),
            final(self).input@ == old(self).input@,
            final(self).tabsize == old(self).tabsize,
            final(self).tokens@ == old(self).tokens@,
            final(self).labels@ == old(self).labels@,
            final(self).program_bytes == old(self).program_bytes,
            final(self).prev_pos == old(self).prev_pos,
    {
        proof {
            lemma_run_ends(self.input@, self.current_pos.idx as int);
        }
        let digits = self.consume_digits();
        if digits.len() == 0 {
            return None;
        }
        match parse_digits_u8(&digits) {
            Some(v) => Some(Ok(v)),
            None => Some(
                Err(
                    TokenizerError::LiteralValueTooLarge(
                        Box::new(
                            LiteralValueTooLarge {
                                value_string: Self::string_of(&digits),
                                line: self.prev_pos.line,
                                col: self.prev_pos.col,
                            },
                        ),
                    ),
                ),
            ),
        }
    }

    fn tokenize_memory_reference(&mut self) -> (res: Result<(), TokenizerError>)
        requires
            old(self).wf(),
            old(self).current_pos.idx < old(self).input@.len(),
            spec_is_digit(old(self).input@[old(self).current_pos.idx as int]),
        ensures
            Self::stepped(*old(self), *final(self), res),
    {
        proof {
            lemma_run_ends(self.input@, self.current_pos.idx as int);
            lemma_run_ends(self.input@, self.current_pos.idx + 1);
        }
        match self.consume_u8() {
            Some(Ok(v)) => self.add_token(TokenKind::Operand(Operand::MemoryRef(v))),
            Some(Err(e)) => Err(e),
            None => Ok(()),
        }
    }

    fn tokenize_literal(&mut self) -> (res: Result<(), TokenizerError>)
        requires
            old(self).wf(),
            old(self).current_pos.idx < old(self).input@.len(),
            old(self).input@[old(self).current_pos.idx as int] == '#',
        ensures
            Self::outcome(*old(self), *final(self), res, lex_literal(old(self).input@, old(self).tabsize as int, old(self).state())),
    {
        self.next();
        proof {
            lemma_run_ends(self.input@, self.current_pos.idx as int);
        }
        match self.consume_u8() {
            Some(Ok(v)) => self.add_token(TokenKind::Operand(Operand::Literal(v))),
            Some(Err(e)) => Err(e),
            None => Err(
                TokenizerError::MissingNumberAfterLiteralDenoter(
                    Box::new(MissingNumberAfterLiteralDenoter { line: self.prev_pos.line, col: self.prev_pos.col }),
                ),
            ),
        }
    }

    /// Whether a label of this name has been defined.
    fn find_label(&self, name: &String) -> (res: bool)
        ensures
            res == defines(label_views(self.labels@), name@),
    {
        let mut k: usize = 0;
        while k < self.labels.len()
            invariant
                k <= self.labels@.len(),
                forall|m: int| 0 <= m < k ==> (#[trigger] label_views(self.labels@)[m]).0 != name@,
            decreases self.labels@.len() - k,
        {
            if self.labels[k].0 == *name {
                assert(label_views(self.labels@)[k as int].0 == name@);
                return true;
            }
            k = k + 1;
        }
        false
    }

    fn tokenize_identifier(&mut self) -> (res: Result<(), TokenizerError>)
        requires
            old(self).wf(),
            old(self).current_pos.idx < old(self).input@.len(),
            is_identifier_start(old(self).input@[old(self).current_pos.idx as int]),
        ensures
            Self::outcome(*old(self), *final(self), res, lex_identifier(old(self).input@, old(self).tabsize as int, old(self).state())),
    {
        let ghost input = self.input@;
        let ghost i = self.current_pos.idx as int;
        proof {
            lemma_run_ends(input, i);
            lemma_run_ends(input, i + 1);
        }
        let ident = self.consume_identifier();
        let ghost j = identifier_end(input, i);
        proof {
            lemma_run_ends(input, j);
        }
        if chars_eq_str(&ident, "R") {
            proof {
                lemma_run_ends(input, j);
                lemma_advance_to_trans(old(self).current_pos@, input, j, digit_run_end(input, j), self.tabsize as int);
            }
            return match self.consume_u8() {
                Some(Ok(v)) => {
                    if v >= REGISTER_COUNT {
                        return Err(
                            TokenizerError::InvalidRegisterNumber(
                                Box::new(InvalidRegisterNumber { value: v, line: self.prev_pos.line, col: self.prev_pos.col }),
                            ),
                        );
                    }
                    self.add_token(TokenKind::Operand(Operand::Register(v)))
                },
                Some(Err(e)) => Err(e),
                None => Err(
                    TokenizerError::MissingNumberAfterRegisterDenoter(
                        Box::new(MissingNumberAfterRegisterDenoter { line: self.prev_pos.line, col: self.prev_pos.col }),
                    ),
                ),
            };
        }
        match SourceOpcode::from_chars(&ident) {
            Ok(op) => {
                return self.add_token(TokenKind::Opcode(op));
            },
            Err(()) => {},
        }
        if self.peek() == Some(':') {
            let n = self.tokens.len();
            let allowed = n == 0 || self.tokens[n - 1].kind == TokenKind::Newline || self.tokens[n - 1].kind
                == TokenKind::Semicolon;
            proof {
                if n > 0 {
                    assert(token_views(self.tokens@).last() == self.tokens@[n - 1]@);
                }
            }
            if !allowed {
                return Err(
                    TokenizerError::InvalidLabelDefinitionLocation(
                        Box::new(
                            InvalidLabelDefinitionLocation {
                                label_name: Self::string_of(&ident),
                                line: self.prev_pos.line,
                                col: self.prev_pos.col,
                            },
                        ),
                    ),
                );
            }
            let name = Self::string_of(&ident);
            if self.find_label(&name) {
                return Err(
                    TokenizerError::DuplicateLabelDefinition(
                        Box::new(
                            DuplicateLabelDefinition { label_name: name, line: self.prev_pos.line, col: self.prev_pos.col },
                        ),
                    ),
                );
            }
            let definition = LabelDefinition {
                byte: (self.program_bytes % 256) as u8,
                line: self.prev_pos.line,
                col: self.prev_pos.col,
            };
            self.labels.push((name, definition));
            proof {
                lemma_advance_to_step(old(self).current_pos@, input, j, self.tabsize as int);
                assert(label_views(self.labels@) =~= label_views(old(self).labels@).push((ident@, definition@)));
            }
            self.next();
            return Ok(());
        }
        self.add_token(TokenKind::Operand(Operand::Label))
    }

    fn comment(&mut self) -> (res: Result<(), TokenizerError>)
        requires
            old(self).wf(),
            old(self).current_pos.idx < old(self).input@.len(),
            old(self).input@[old(self).current_pos.idx as int] == '/',
        ensures
            Self::outcome(*old(self), *final(self), res, lex_comment(old(self).input@, old(self).tabsize as int, old(self).state())),
    {
        let ghost input = self.input@;
        let ghost start = self.current_pos@;
        let ghost i = start.idx;
        let ghost tab = self.tabsize as int;
        proof {
            lemma_advance_to_step(start, input, i, tab);
        }
        self.next();
        match self.peek() {
            Some('/') => {
                proof {
                    lemma_advance_to_step(start, input, i + 1, tab);
                }
                self.next();
                proof {
                    lemma_run_ends(input, i + 2);
                }
                let ghost end = line_end(input, i + 2);
                loop
                    invariant
                        self.wf(),
                        self.input@ == input,
                        self.tabsize as int == tab,
                        self.tokens@ == old(self).tokens@,
                        self.labels@ == old(self).labels@,
                        self.program_bytes == old(self).program_bytes,
                        self.prev_pos == old(self).prev_pos,
                        end == line_end(input, i + 2),
                        i + 2 <= self.current_pos.idx <= end <= input.len(),
                        line_end(input, self.current_pos.idx as int) == end,
                        self.current_pos@ == advance_to(start, input, self.current_pos.idx as int, tab),
                    ensures
                        self.wf(),
                        self.input@ == input,
                        self.tabsize as int == tab,
                        self.tokens@ == old(self).tokens@,
                        self.labels@ == old(self).labels@,
                        self.program_bytes == old(self).program_bytes,
                        self.prev_pos == old(self).prev_pos,
                        self.current_pos.idx == end,
                        self.current_pos@ == advance_to(start, input, end, tab),
                    decreases input.len() - self.current_pos.idx,
                {
                    match self.peek() {
                        Some(c) => {
                            if c == '\n' {
                                break;
                            }
                        },
                        None => {
                            break;
                        },
                    }
                    proof {
                        lemma_advance_to_step(start, input, self.current_pos.idx as int, tab);
                        lemma_run_ends(input, self.current_pos.idx + 1);
                    }
                    self.next();
                }
            },
            Some('*') => {
                proof {
                    lemma_advance_to_step(start, input, i + 1, tab);
                }
                self.next();
                loop
                    invariant_except_break
                        block_comment_end(input, i + 2) == block_comment_end(input, self.current_pos.idx as int),
                    invariant
                        self.wf(),
                        self.input@ == input,
                        self.tabsize as int == tab,
                        self.tokens@ == old(self).tokens@,
                        self.labels@ == old(self).labels@,
                        self.program_bytes == old(self).program_bytes,
                        self.prev_pos == old(self).prev_pos,
                        i + 2 <= self.current_pos.idx <= input.len(),
                        self.current_pos@ == advance_to(start, input, self.current_pos.idx as int, tab),
                        start == old(self).current_pos@,
                        i == start.idx,
                        i + 1 < input.len(),
                        input[i + 1] == '*',
                        input == old(self).input@,
                        tab == old(self).tabsize as int,
                    ensures
                        self.wf(),
                        self.input@ == input,
                        self.tabsize as int == tab,
                        self.tokens@ == old(self).tokens@,
                        self.labels@ == old(self).labels@,
                        self.program_bytes == old(self).program_bytes,
                        self.prev_pos == old(self).prev_pos,
                        block_comment_end(input, i + 2) == Some(self.current_pos.idx as int),
                        self.current_pos@ == advance_to(start, input, self.current_pos.idx as int, tab),
                    decreases input.len() - self.current_pos.idx,
                {
                    if self.current_pos.idx >= self.input.len() {
                        return Err(
                            TokenizerError::UnterminatedBlockComment(
                                Box::new(UnterminatedBlockComment { line: self.prev_pos.line, col: self.prev_pos.col }),
                            ),
                        );
                    }
                    proof {
                        lemma_advance_to_step(start, input, self.current_pos.idx as int, tab);
                    }
                    let c = self.next();
                    if c == '*' && self.peek() == Some('/') {
                        proof {
                            lemma_advance_to_step(start, input, self.current_pos.idx as int, tab);
                        }
                        self.next();
                        break;
                    }
                }
            },
            _ => {
                return Err(
                    TokenizerError::InvalidCommentDenoter(
                        Box::new(InvalidCommentDenoter { line: self.prev_pos.line, col: self.prev_pos.col }),
                    ),
                );
            },
        }
        self.prev_pos = self.current_pos;
        Ok(())
    }
}

// ---------------------------------------------------------------------------
// What every tokenization produces.

/// No label is defined twice.
pub open spec fn labels_distinct(labels: Seq<(Seq<char>, LabelView)>) -> bool {
    forall|a: int, b: int| 0 <= a < b < labels.len() ==> (#[trigger] labels[a]).0 != (#[trigger] labels[b]).0
}

/// Every register operand names one of the 13 registers.
pub open spec fn registers_valid(tokens: Seq<TokenView>) -> bool {
    forall|k: int|
        0 <= k < tokens.len() ==> ((#[trigger] tokens[k]).kind matches TokenKind::Operand(Operand::Register(r)) ==> r
            < REGISTER_COUNT)
}

/// Every label names the program byte that follows it: the number of
/// opcode and operand tokens before its definition, which begins a line.
pub open spec fn labels_mark_bytes(tokens: Seq<TokenView>, labels: Seq<(Seq<char>, LabelView)>) -> bool {
    forall|k: int| 0 <= k < labels.len() ==> marks_line_start(tokens, (#[trigger] labels[k]).1.byte)
}

/// `byte` is the number of opcode and operand tokens before some index that
/// begins a line (taken modulo 256, the size of memory).
pub open spec fn marks_line_start(tokens: Seq<TokenView>, byte: u8) -> bool {
    exists|j: int| 0 <= j <= tokens.len() && starts_line(tokens, j) && byte == #[trigger] byte_count(tokens.take(j)) % 256
}

/// The facts that hold of every tokenization state.
pub open spec fn lex_invariant(st: LexState) -> bool {
    &&& st.program_bytes == byte_count(st.tokens)
    &&& st.program_bytes <= 256
    &&& labels_distinct(st.labels)
    &&& registers_valid(st.tokens)
    &&& labels_mark_bytes(st.tokens, st.labels)
}

proof fn lemma_add_token_invariant(input: Seq<char>, st: LexState, kind: TokenKind)
    requires
        lex_invariant(st),
        kind matches TokenKind::Operand(Operand::Register(r)) ==> r < REGISTER_COUNT,
    ensures
        add_token(input, st, kind) matches Ok(st2) ==> lex_invariant(st2) && st2.labels == st.labels,
{
    if let Ok(st2) = add_token(input, st, kind) {
        assert(st2.tokens.drop_last() =~= st.tokens);
        assert forall|k: int| 0 <= k < st2.labels.len() implies marks_line_start(st2.tokens, (#[trigger] st2.labels[k]).1.byte) by {
            assert(st2.labels[k] == st.labels[k]);
            assert(marks_line_start(st.tokens, st.labels[k].1.byte));
            let j = choose|j: int|
                0 <= j <= st.tokens.len() && starts_line(st.tokens, j) && st.labels[k].1.byte == #[trigger] byte_count(
                    st.tokens.take(j),
                ) % 256;
            assert(st2.tokens.take(j) =~= st.tokens.take(j));
            if j > 0 {
                assert(st2.tokens[j - 1] == st.tokens[j - 1]);
            }
            assert(0 <= j <= st2.tokens.len() && starts_line(st2.tokens, j) && st2.labels[k].1.byte == byte_count(
                st2.tokens.take(j),
            ) % 256);
        }
        assert forall|k: int| 0 <= k < st2.tokens.len() implies ((#[trigger] st2.tokens[k]).kind matches TokenKind::Operand(
            Operand::Register(r),
        ) ==> r < REGISTER_COUNT) by {
            if k < st.tokens.len() {
                assert(st2.tokens[k] == st.tokens[k]);
            }
        }
    }
}

proof fn lemma_step_invariant(input: Seq<char>, tab: int, st: LexState)
    requires
        lex_invariant(st),
        0 <= st.cur.idx < input.len(),
    ensures
        lex_step(input, tab, st) matches Ok(st2) ==> lex_invariant(st2),
{
    let i = st.cur.idx;
    let c = input[i];
    let cur1 = advance(st.cur, c, tab);
    lemma_add_token_invariant(input, LexState { cur: cur1, ..st }, TokenKind::Newline);
    lemma_add_token_invariant(input, LexState { cur: cur1, ..st }, TokenKind::Semicolon);
    lemma_add_token_invariant(input, LexState { cur: cur1, ..st }, TokenKind::Comma);
    let j = digit_run_end(input, i);
    lemma_add_token_invariant(
        input,
        LexState { cur: advance_to(st.cur, input, j, tab), ..st },
        TokenKind::Operand(Operand::MemoryRef(decimal_value(input.subrange(i, j)) as u8)),
    );
    let k = digit_run_end(input, i + 1);
    lemma_add_token_invariant(
        input,
        LexState { cur: advance_to(st.cur, input, k, tab), ..st },
        TokenKind::Operand(Operand::Literal(decimal_value(input.subrange(i + 1, k)) as u8)),
    );
    if is_identifier_start(c) {
        let e = identifier_end(input, i);
        let ident = input.subrange(i, e);
        let d = digit_run_end(input, e);
        let digits = input.subrange(e, d);
        if decimal_value(digits) < REGISTER_COUNT {
            lemma_add_token_invariant(
                input,
                LexState { cur: advance_to(st.cur, input, d, tab), ..st },
                TokenKind::Operand(Operand::Register(decimal_value(digits) as u8)),
            );
        }
        if SourceOpcode::spec_from_name(ident) is Some {
            lemma_add_token_invariant(
                input,
                LexState { cur: advance_to(st.cur, input, e, tab), ..st },
                TokenKind::Opcode(SourceOpcode::spec_from_name(ident)->0),
            );
        }
        lemma_add_token_invariant(
            input,
            LexState { cur: advance_to(st.cur, input, e, tab), ..st },
            TokenKind::Operand(Operand::Label),
        );
        if let Ok(st2) = lex_step(input, tab, st) {
            if st2.labels.len() != st.labels.len() {
                let lv = LabelView { byte: (st.program_bytes % 256) as u8, line: st.prev.line, col: st.prev.col };
                assert(st2.labels == st.labels.push((ident, lv)));
                assert(!defines(st.labels, ident));
                assert forall|k: int| 0 <= k < st2.labels.len() implies marks_line_start(
                    st2.tokens,
                    (#[trigger] st2.labels[k]).1.byte,
                ) by {
                    if k == st.labels.len() {
                        let j = st2.tokens.len() as int;
                        assert(st2.tokens.take(j) =~= st2.tokens);
                        assert(label_definition_allowed(st.tokens));
                        assert(starts_line(st2.tokens, j));
                        assert(0 <= j <= st2.tokens.len() && starts_line(st2.tokens, j) && st2.labels[k].1.byte
                            == byte_count(st2.tokens.take(j)) % 256);
                    } else {
                        assert(st2.labels[k] == st.labels[k]);
                        assert(marks_line_start(st.tokens, st.labels[k].1.byte));
                    }
                }
                assert forall|a: int, b: int| 0 <= a < b < st2.labels.len() implies (#[trigger] st2.labels[a]).0
                    != (#[trigger] st2.labels[b]).0 by {
                    if b == st.labels.len() {
                        assert(st2.labels[a] == st.labels[a]);
                    } else {
                        assert(st2.labels[a] == st.labels[a]);
                        assert(st2.labels[b] == st.labels[b]);
                    }
                }
            }
        }
    }
}

proof fn lemma_run_invariant(input: Seq<char>, tab: int, st: LexState)
    requires
        lex_invariant(st),
    ensures
        lex_run(input, tab, st) matches Ok(p) ==> lex_invariant(
            LexState { tokens: p.tokens, labels: p.labels, program_bytes: p.program_bytes, prev: st.prev, cur: st.cur },
        ),
    decreases input.len() - st.cur.idx,
{
    if 0 <= st.cur.idx < input.len() {
        lemma_step_invariant(input, tab, st);
        lemma_step_progress(input, tab, st);
        if let Ok(st2) = lex_step(input, tab, st) {
            lemma_run_invariant(input, tab, st2);
        }
    }
}

/// What every successful tokenization produces: the byte count is the number
/// of opcode and operand tokens and at most 256, no label is defined twice,
/// every label names the byte that follows its definition, and every
/// register operand names one of the 13 registers.
pub proof fn lemma_tokenize_output(input: Seq<char>, tab: int)
    ensures
        spec_tokenize(input, tab) matches Ok(p) ==> {
            &&& p.program_bytes == byte_count(p.tokens)
            &&& p.program_bytes <= 256
            &&& labels_distinct(p.labels)
            &&& registers_valid(p.tokens)
            &&& labels_mark_bytes(p.tokens, p.labels)
        },
{
    assert(byte_count(Seq::<TokenView>::empty()) == 0);
    lemma_run_invariant(input, tab, initial_state());
}

} // verus!
