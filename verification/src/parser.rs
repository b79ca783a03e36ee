use vstd::prelude::*;
use crate::operand::{Operand, signature_of};
use crate::runtime_opcode::RuntimeOpcode;
use crate::signature::{SignatureArgument, SignatureTree, signature_tree, standard_signature};
use crate::source_opcode::SourceOpcode;
use crate::token::{
    Token, TokenKind, TokenView, byte_count, lemma_byte_count_bounds, lemma_byte_count_one, lemma_byte_count_split,
    starts_line, token_views,
};
use crate::tokenizer::{LabelDefinition, LabelView, label_views, lemma_tokenize_output, spec_tokenize};
use crate::parser_error::{
    ExpectedOpcode, ExpectedOperand, ExpectedTokenKind, InvalidInstructionSignature, InvalidLabel, ParserError,
    ParserErrorView,
};

verus! {

// ---------------------------------------------------------------------------
// The grammar: a program is a sequence of instructions and line delimiters;
// an instruction is an opcode, its operands separated by commas, and a line
// delimiter.

/// The first definition of `name` in a label table.
pub open spec fn find_label(labels: Seq<(Seq<char>, LabelView)>, name: Seq<char>) -> Option<LabelView>
    decreases labels.len(),
{
    if labels.len() == 0 {
        None
    } else if labels[0].0 == name {
        Some(labels[0].1)
    } else {
        find_label(labels.drop_first(), name)
    }
}

/// The byte that loads for an operand: its number, or the byte of its label.
pub open spec fn operand_byte(labels: Seq<(Seq<char>, LabelView)>, o: Operand, t: TokenView) -> Option<u8> {
    match o {
        Operand::Literal(v) => Some(v),
        Operand::Register(v) => Some(v),
        Operand::MemoryRef(v) => Some(v),
        Operand::Label => match find_label(labels, t.lexeme) {
            Some(d) => Some(d.byte),
            None => None,
        },
    }
}

/// The bytes of the operands, or the error at the first unknown label
/// together with the number of operand bytes loaded before it.
pub open spec fn encode_operands(
    labels: Seq<(Seq<char>, LabelView)>,
    ops: Seq<(Operand, TokenView)>,
) -> Result<Seq<u8>, (ParserErrorView, int)>
    decreases ops.len(),
{
    if ops.len() == 0 {
        Ok(Seq::empty())
    } else {
        match operand_byte(labels, ops[0].0, ops[0].1) {
            None => Err((ParserErrorView::InvalidLabel { token: ops[0].1 }, 0)),
            Some(b) => match encode_operands(labels, ops.drop_first()) {
                Ok(bs) => Ok(seq![b] + bs),
                Err((e, k)) => Err((e, k + 1)),
            },
        }
    }
}

/// Operands after the first: each introduced by a comma.
pub open spec fn gather_more(
    tokens: Seq<TokenView>,
    pos: int,
    acc: Seq<(Operand, TokenView)>,
) -> Result<(Seq<(Operand, TokenView)>, int), ParserErrorView>
    decreases tokens.len() - pos,
{
    if 0 <= pos < tokens.len() && tokens[pos].kind == TokenKind::Comma {
        if pos + 1 < tokens.len() && tokens[pos + 1].kind is Operand {
            gather_more(tokens, pos + 2, acc.push((tokens[pos + 1].kind->Operand_0, tokens[pos])))
        } else {
            Err(ParserErrorView::ExpectedOperand {
                got: if pos + 1 < tokens.len() {
                    Some(tokens[pos + 1])
                } else {
                    None
                },
            })
        }
    } else {
        Ok((acc, pos))
    }
}

/// The operands that follow an opcode (at `j`), each with the token that the
/// loader pairs with it, and the index after them.
pub open spec fn gather_operands(tokens: Seq<TokenView>, j: int) -> Result<
    (Seq<(Operand, TokenView)>, int),
    ParserErrorView,
> {
    if 0 <= j < tokens.len() && tokens[j].kind is Operand {
        gather_more(tokens, j + 1, seq![(tokens[j].kind->Operand_0, tokens[j])])
    } else {
        Ok((Seq::empty(), j))
    }
}

pub open spec fn operands_of(ops: Seq<(Operand, TokenView)>) -> Seq<Operand> {
    ops.map_values(|p: (Operand, TokenView)| p.0)
}

/// The instruction whose opcode is at `i`: the index after it and its bytes,
/// or the error and the number of its bytes loaded before the error.
pub open spec fn parse_instruction(
    tokens: Seq<TokenView>,
    labels: Seq<(Seq<char>, LabelView)>,
    i: int,
) -> Result<(int, Seq<u8>), (ParserErrorView, int)> {
    let op = tokens[i].kind->Opcode_0;
    match gather_operands(tokens, i + 1) {
        Err(e) => Err((e, 0)),
        Ok((ops, pos)) => if pos >= tokens.len() {
            Err((ParserErrorView::ExpectedTokenKind { candidates: seq![TokenKind::Semicolon, TokenKind::Newline], got: None }, 0))
        } else if tokens[pos].kind == TokenKind::Newline || tokens[pos].kind == TokenKind::Semicolon {
            match standard_signature(op, signature_of(operands_of(ops))) {
                None => Err((
                    ParserErrorView::InvalidInstructionSignature {
                        opcode_token: tokens[i],
                        source_opcode: op,
                        received: operands_of(ops),
                    },
                    0,
                )),
                Some(rt) => match encode_operands(labels, ops) {
                    Ok(bs) => Ok((pos + 1, seq![rt.spec_code()] + bs)),
                    Err((e, k)) => Err((e, k + 1)),
                },
            }
        } else if tokens[pos].kind is Operand {
            Err((ParserErrorView::ExpectedTokenKind { candidates: seq![TokenKind::Comma], got: Some(tokens[pos]) }, 0))
        } else {
            Err((
                ParserErrorView::ExpectedTokenKind {
                    candidates: seq![TokenKind::Semicolon, TokenKind::Newline],
                    got: Some(tokens[pos]),
                },
                0,
            ))
        },
    }
}

/// What loading produces: the program bytes, or an error together with the
/// number of bytes loaded before it.
pub enum ParseOutcome {
    Loaded(Seq<u8>),
    Failed(ParserErrorView, int),
}

pub proof fn lemma_gather_more(tokens: Seq<TokenView>, pos: int, acc: Seq<(Operand, TokenView)>)
    requires
        pos >= 0,
    ensures
        gather_more(tokens, pos, acc) matches Ok((ops, p)) ==> pos <= p,
    decreases tokens.len() - pos,
{
    if 0 <= pos < tokens.len() && tokens[pos].kind == TokenKind::Comma && pos + 1 < tokens.len()
        && tokens[pos + 1].kind is Operand {
        lemma_gather_more(tokens, pos + 2, acc.push((tokens[pos + 1].kind->Operand_0, tokens[pos])));
    }
}

pub proof fn lemma_instruction_progress(tokens: Seq<TokenView>, labels: Seq<(Seq<char>, LabelView)>, i: int)
    requires
        0 <= i,
    ensures
        parse_instruction(tokens, labels, i) matches Ok((next, b)) ==> i < next,
{
    lemma_gather_more(tokens, i + 2, seq![]);
    if 0 <= i + 1 < tokens.len() && tokens[i + 1].kind is Operand {
        lemma_gather_more(tokens, i + 2, seq![(tokens[i + 1].kind->Operand_0, tokens[i + 1])]);
    }
}

/// Loading from token `i` on, with `bytes` loaded so far.
pub open spec fn parse_from(
    tokens: Seq<TokenView>,
    labels: Seq<(Seq<char>, LabelView)>,
    i: int,
    bytes: Seq<u8>,
) -> ParseOutcome
    decreases tokens.len() - i,
{
    if i < 0 || i >= tokens.len() {
        ParseOutcome::Loaded(bytes)
    } else {
        match tokens[i].kind {
            TokenKind::Opcode(_) => match parse_instruction(tokens, labels, i) {
                Err((e, k)) => ParseOutcome::Failed(e, bytes.len() + k),
                Ok((next, b)) => {
                    proof {
                        lemma_instruction_progress(tokens, labels, i);
                    }
                    parse_from(tokens, labels, next, bytes + b)
                },
            },
            TokenKind::Newline | TokenKind::Semicolon => parse_from(tokens, labels, i + 1, bytes),
            _ => ParseOutcome::Failed(ParserErrorView::ExpectedOpcode { got: tokens[i] }, bytes.len() as int),
        }
    }
}

/// Loading a whole token sequence.
pub open spec fn spec_parse(tokens: Seq<TokenView>, labels: Seq<(Seq<char>, LabelView)>) -> ParseOutcome {
    parse_from(tokens, labels, 0, Seq::empty())
}

/// Loading stays within the 256 bytes of memory (else the loader aborts).
pub open spec fn fits_in_memory(outcome: ParseOutcome) -> bool {
    match outcome {
        ParseOutcome::Loaded(b) => b.len() <= 256,
        ParseOutcome::Failed(_, k) => k <= 256,
    }
}

/// The memory image holding `bytes` followed by zeros.
pub open spec fn memory_image(bytes: Seq<u8>) -> Seq<u8> {
    Seq::new(256, |k: int| if k < bytes.len() { bytes[k] } else { 0u8 })
}

/// Loading never counts fewer bytes than it has already loaded.
pub proof fn lemma_parse_from_grows(
    tokens: Seq<TokenView>,
    labels: Seq<(Seq<char>, LabelView)>,
    i: int,
    bytes: Seq<u8>,
)
    ensures
        match parse_from(tokens, labels, i, bytes) {
            ParseOutcome::Loaded(b) => bytes.len() <= b.len(),
            ParseOutcome::Failed(_, k) => bytes.len() <= k,
        },
    decreases tokens.len() - i,
{
    if 0 <= i < tokens.len() {
        match tokens[i].kind {
            TokenKind::Opcode(_) => match parse_instruction(tokens, labels, i) {
                Err((e, k)) => {
                    assert(0 <= k) by {
                        lemma_instruction_error_count(tokens, labels, i);
                    }
                },
                Ok((next, b)) => {
                    lemma_instruction_progress(tokens, labels, i);
                    lemma_parse_from_grows(tokens, labels, next, bytes + b);
                },
            },
            TokenKind::Newline | TokenKind::Semicolon => {
                lemma_parse_from_grows(tokens, labels, i + 1, bytes);
            },
            _ => {},
        }
    }
}

proof fn lemma_encode_error_count(labels: Seq<(Seq<char>, LabelView)>, ops: Seq<(Operand, TokenView)>)
    ensures
        encode_operands(labels, ops) matches Err((e, k)) ==> 0 <= k,
    decreases ops.len(),
{
    if ops.len() > 0 {
        lemma_encode_error_count(labels, ops.drop_first());
    }
}

proof fn lemma_instruction_error_count(tokens: Seq<TokenView>, labels: Seq<(Seq<char>, LabelView)>, i: int)
    ensures
        parse_instruction(tokens, labels, i) matches Err((e, k)) ==> 0 <= k,
{
    if let Ok((ops, pos)) = gather_operands(tokens, i + 1) {
        lemma_encode_error_count(labels, ops);
    }
}

proof fn lemma_gather_more_count(tokens: Seq<TokenView>, pos: int, acc: Seq<(Operand, TokenView)>)
    requires
        0 <= pos <= tokens.len(),
    ensures
        gather_more(tokens, pos, acc) matches Ok((ops, p)) ==> pos <= p <= tokens.len() && ops.len() == acc.len()
            + byte_count(tokens.subrange(pos, p)),
    decreases tokens.len() - pos,
{
    if pos < tokens.len() && tokens[pos].kind == TokenKind::Comma && pos + 1 < tokens.len()
        && tokens[pos + 1].kind is Operand {
        let acc2 = acc.push((tokens[pos + 1].kind->Operand_0, tokens[pos]));
        lemma_gather_more_count(tokens, pos + 2, acc2);
        if let Ok((ops, p)) = gather_more(tokens, pos + 2, acc2) {
            lemma_byte_count_split(tokens, pos, pos + 1, p);
            lemma_byte_count_split(tokens, pos + 1, pos + 2, p);
            lemma_byte_count_one(tokens, pos);
            lemma_byte_count_one(tokens, pos + 1);
        }
    } else {
        assert(tokens.subrange(pos, pos) =~= Seq::<TokenView>::empty());
    }
}

proof fn lemma_encode_count(labels: Seq<(Seq<char>, LabelView)>, ops: Seq<(Operand, TokenView)>)
    ensures
        match encode_operands(labels, ops) {
            Ok(bs) => bs.len() == ops.len(),
            Err((e, k)) => 0 <= k < ops.len(),
        },
    decreases ops.len(),
{
    if ops.len() > 0 {
        lemma_encode_count(labels, ops.drop_first());
    }
}

/// An instruction loads one byte for its opcode and one for each operand.
pub(crate) proof fn lemma_instruction_count(tokens: Seq<TokenView>, labels: Seq<(Seq<char>, LabelView)>, i: int)
    requires
        0 <= i < tokens.len(),
        tokens[i].kind is Opcode,
    ensures
        match parse_instruction(tokens, labels, i) {
            Ok((next, b)) => i < next <= tokens.len() && b.len() == byte_count(tokens.subrange(i, next)),
            Err((e, k)) => 0 <= k <= byte_count(tokens.subrange(i, tokens.len() as int)),
        },
{
    lemma_byte_count_one(tokens, i);
    lemma_byte_count_bounds(tokens.subrange(i, tokens.len() as int));
    let j = i + 1;
    if j < tokens.len() && tokens[j].kind is Operand {
        lemma_gather_more_count(tokens, j + 1, seq![(tokens[j].kind->Operand_0, tokens[j])]);
        lemma_byte_count_one(tokens, j);
    } else {
        assert(tokens.subrange(j, j) =~= Seq::<TokenView>::empty());
    }
    if let Ok((ops, p)) = gather_operands(tokens, j) {
        if j < tokens.len() && tokens[j].kind is Operand {
            lemma_byte_count_split(tokens, j, j + 1, p);
        }
        assert(j <= p <= tokens.len());
        assert(ops.len() == byte_count(tokens.subrange(j, p)));
        lemma_encode_count(labels, ops);
        lemma_byte_count_split(tokens, i, j, p);
        assert(byte_count(tokens.subrange(i, p)) == 1 + ops.len());
        lemma_byte_count_split(tokens, i, p, tokens.len() as int);
        lemma_byte_count_bounds(tokens.subrange(p, tokens.len() as int));
        if p < tokens.len() {
            lemma_byte_count_split(tokens, i, p, p + 1);
            lemma_byte_count_one(tokens, p);
            if tokens[p].kind == TokenKind::Newline || tokens[p].kind == TokenKind::Semicolon {
                assert(byte_count(tokens.subrange(i, p + 1)) == 1 + ops.len());
            }
        }
    }
    lemma_byte_count_split(tokens, i, j, tokens.len() as int);
}

/// Loading from token `i` on loads one byte for each opcode and operand
/// token from `i` on, or fails having loaded no more than that.
proof fn lemma_parse_from_count(
    tokens: Seq<TokenView>,
    labels: Seq<(Seq<char>, LabelView)>,
    i: int,
    bytes: Seq<u8>,
)
    requires
        0 <= i <= tokens.len(),
    ensures
        match parse_from(tokens, labels, i, bytes) {
            ParseOutcome::Loaded(b) => b.len() == bytes.len() + byte_count(tokens.subrange(i, tokens.len() as int)),
            ParseOutcome::Failed(_, k) => k <= bytes.len() + byte_count(tokens.subrange(i, tokens.len() as int)),
        },
    decreases tokens.len() - i,
{
    lemma_byte_count_bounds(tokens.subrange(i, tokens.len() as int));
    if i == tokens.len() {
        assert(tokens.subrange(i, i) =~= Seq::<TokenView>::empty());
    } else {
        lemma_byte_count_one(tokens, i);
        lemma_byte_count_split(tokens, i, i + 1, tokens.len() as int);
        match tokens[i].kind {
            TokenKind::Opcode(_) => {
                lemma_instruction_count(tokens, labels, i);
                if let Ok((next, b)) = parse_instruction(tokens, labels, i) {
                    lemma_parse_from_count(tokens, labels, next, bytes + b);
                    lemma_byte_count_split(tokens, i, next, tokens.len() as int);
                }
            },
            TokenKind::Newline | TokenKind::Semicolon => {
                lemma_parse_from_count(tokens, labels, i + 1, bytes);
            },
            _ => {},
        }
    }
}

/// Loading a token sequence with at most 256 opcode and operand tokens stays
/// within memory, and a loaded program has one byte for each such token.
pub proof fn lemma_parse_size(tokens: Seq<TokenView>, labels: Seq<(Seq<char>, LabelView)>)
    ensures
        spec_parse(tokens, labels) matches ParseOutcome::Loaded(b) ==> b.len() == byte_count(tokens),
        byte_count(tokens) <= 256 ==> fits_in_memory(spec_parse(tokens, labels)),
{
    lemma_parse_from_count(tokens, labels, 0, Seq::empty());
    assert(tokens.subrange(0, tokens.len() as int) =~= tokens);
}

/// What the tokenizer produces can always be loaded: loading stays within
/// memory, and a loaded program occupies exactly the number of bytes that the
/// tokenizer counted.
pub proof fn lemma_tokenized_program_loads(input: Seq<char>, tab: int)
    ensures
        spec_tokenize(input, tab) matches Ok(p) ==> {
            &&& fits_in_memory(spec_parse(p.tokens, p.labels))
            &&& spec_parse(p.tokens, p.labels) matches ParseOutcome::Loaded(b) ==> b.len() == p.program_bytes
        },
{
    lemma_tokenize_output(input, tab);
    if let Ok(p) = spec_tokenize(input, tab) {
        lemma_parse_size(p.tokens, p.labels);
    }
}

/// The token sequence with every semicolon turned into a newline.
pub open spec fn semicolons_as_newlines(tokens: Seq<TokenView>) -> Seq<TokenView> {
    tokens.map_values(
        |t: TokenView|
            if t.kind == TokenKind::Semicolon {
                TokenView { kind: TokenKind::Newline, ..t }
            } else {
                t
            },
    )
}

/// The loaded bytes, if loading succeeded.
pub open spec fn loaded_bytes(outcome: ParseOutcome) -> Option<Seq<u8>> {
    match outcome {
        ParseOutcome::Loaded(b) => Some(b),
        ParseOutcome::Failed(_, _) => None,
    }
}

/// The result of an instruction, if it loaded.
pub open spec fn instruction_bytes(r: Result<(int, Seq<u8>), (ParserErrorView, int)>) -> Option<(int, Seq<u8>)> {
    match r {
        Ok(x) => Some(x),
        Err(_) => None,
    }
}

proof fn lemma_gather_more_delimiters(tokens: Seq<TokenView>, pos: int, acc: Seq<(Operand, TokenView)>)
    ensures
        ({
            let u = semicolons_as_newlines(tokens);
            &&& (gather_more(tokens, pos, acc) is Ok) == (gather_more(u, pos, acc) is Ok)
            &&& gather_more(tokens, pos, acc) is Ok ==> gather_more(tokens, pos, acc) == gather_more(u, pos, acc)
        }),
    decreases tokens.len() - pos,
{
    let u = semicolons_as_newlines(tokens);
    if 0 <= pos < tokens.len() && tokens[pos].kind == TokenKind::Comma {
        assert(u[pos] == tokens[pos]);
        if pos + 1 < tokens.len() && tokens[pos + 1].kind is Operand {
            assert(u[pos + 1] == tokens[pos + 1]);
            lemma_gather_more_delimiters(tokens, pos + 2, acc.push((tokens[pos + 1].kind->Operand_0, tokens[pos])));
        } else if pos + 1 < tokens.len() {
            assert(!(u[pos + 1].kind is Operand));
        }
    } else if 0 <= pos < tokens.len() {
        assert(u[pos].kind != TokenKind::Comma);
    }
}

proof fn lemma_instruction_delimiters(tokens: Seq<TokenView>, labels: Seq<(Seq<char>, LabelView)>, i: int)
    requires
        0 <= i < tokens.len(),
        tokens[i].kind is Opcode,
    ensures
        instruction_bytes(parse_instruction(tokens, labels, i)) == instruction_bytes(
            parse_instruction(semicolons_as_newlines(tokens), labels, i),
        ),
{
    let u = semicolons_as_newlines(tokens);
    assert(u[i] == tokens[i]);
    let j = i + 1;
    if j < tokens.len() && tokens[j].kind is Operand {
        assert(u[j] == tokens[j]);
        lemma_gather_more_delimiters(tokens, j + 1, seq![(tokens[j].kind->Operand_0, tokens[j])]);
    } else if j < tokens.len() {
        assert(!(u[j].kind is Operand));
    }
    assert(u.len() == tokens.len());
    assert((gather_operands(tokens, j) is Ok) == (gather_operands(u, j) is Ok));
    lemma_gather_more(tokens, j + 1, seq![]);
    if j < tokens.len() && tokens[j].kind is Operand {
        lemma_gather_more(tokens, j + 1, seq![(tokens[j].kind->Operand_0, tokens[j])]);
    }
    if let Ok((ops, p)) = gather_operands(tokens, j) {
        assert(gather_operands(u, j) == gather_operands(tokens, j));
        if 0 <= p < tokens.len() {
            let t = tokens[p];
            assert(u[p] == if t.kind == TokenKind::Semicolon {
                TokenView { kind: TokenKind::Newline, ..t }
            } else {
                t
            });
            assert((u[p].kind == TokenKind::Newline || u[p].kind == TokenKind::Semicolon) == (t.kind
                == TokenKind::Newline || t.kind == TokenKind::Semicolon));
        }
    }
}

proof fn lemma_parse_from_delimiters(
    tokens: Seq<TokenView>,
    labels: Seq<(Seq<char>, LabelView)>,
    i: int,
    bytes: Seq<u8>,
)
    ensures
        loaded_bytes(parse_from(tokens, labels, i, bytes)) == loaded_bytes(
            parse_from(semicolons_as_newlines(tokens), labels, i, bytes),
        ),
    decreases tokens.len() - i,
{
    let u = semicolons_as_newlines(tokens);
    if 0 <= i < tokens.len() {
        let t = tokens[i];
        assert(u[i] == if t.kind == TokenKind::Semicolon {
            TokenView { kind: TokenKind::Newline, ..t }
        } else {
            t
        });
        match tokens[i].kind {
            TokenKind::Opcode(_) => {
                lemma_instruction_delimiters(tokens, labels, i);
                lemma_instruction_progress(tokens, labels, i);
                if let Ok((next, b)) = parse_instruction(tokens, labels, i) {
                    lemma_parse_from_delimiters(tokens, labels, next, bytes + b);
                }
            },
            TokenKind::Newline | TokenKind::Semicolon => {
                lemma_parse_from_delimiters(tokens, labels, i + 1, bytes);
            },
            _ => {},
        }
    }
}

/// Semicolons and newlines delimit instructions alike: turning every
/// semicolon into a newline loads the same program, and fails where loading
/// failed before.
pub proof fn lemma_delimiters_interchangeable(tokens: Seq<TokenView>, labels: Seq<(Seq<char>, LabelView)>)
    ensures
        loaded_bytes(spec_parse(tokens, labels)) == loaded_bytes(spec_parse(semicolons_as_newlines(tokens), labels)),
{
    lemma_parse_from_delimiters(tokens, labels, 0, Seq::empty());
}

pub(crate) proof fn lemma_gather_more_tokens(tokens: Seq<TokenView>, pos: int, acc: Seq<(Operand, TokenView)>)
    requires
        0 <= pos,
    ensures
        gather_more(tokens, pos, acc) matches Ok((ops, p)) ==> forall|m: int|
            pos <= m < p ==> (#[trigger] tokens[m]).kind == TokenKind::Comma || tokens[m].kind is Operand,
    decreases tokens.len() - pos,
{
    if 0 <= pos < tokens.len() && tokens[pos].kind == TokenKind::Comma && pos + 1 < tokens.len()
        && tokens[pos + 1].kind is Operand {
        lemma_gather_more_tokens(tokens, pos + 2, acc.push((tokens[pos + 1].kind->Operand_0, tokens[pos])));
    }
}

/// An instruction that loads starts with a defined opcode byte, and holds no
/// line delimiter but the one that ends it.
pub(crate) proof fn lemma_instruction_shape(tokens: Seq<TokenView>, labels: Seq<(Seq<char>, LabelView)>, i: int)
    requires
        0 <= i < tokens.len(),
        tokens[i].kind is Opcode,
    ensures
        parse_instruction(tokens, labels, i) matches Ok((next, b)) ==> {
            &&& b.len() >= 1
            &&& RuntimeOpcode::spec_from_code(b[0]) is Some
            &&& i < next <= tokens.len()
            &&& starts_line(tokens, next)
            &&& forall|m: int| i < m < next ==> !#[trigger] starts_line(tokens, m)
        },
{
    let j = i + 1;
    lemma_gather_more(tokens, j + 1, seq![]);
    lemma_gather_more_tokens(tokens, j + 1, seq![]);
    if j < tokens.len() && tokens[j].kind is Operand {
        lemma_gather_more(tokens, j + 1, seq![(tokens[j].kind->Operand_0, tokens[j])]);
        lemma_gather_more_tokens(tokens, j + 1, seq![(tokens[j].kind->Operand_0, tokens[j])]);
    }
    if let Ok((next, b)) = parse_instruction(tokens, labels, i) {
        let rt = standard_signature(tokens[i].kind->Opcode_0, signature_of(operands_of(gather_operands(tokens, j)->Ok_0.0)))->0;
        crate::runtime_opcode::lemma_code_roundtrip(rt);
        assert(b[0] == rt.spec_code());
        assert forall|m: int| i < m < next implies !#[trigger] starts_line(tokens, m) by {
            if m - 1 > i {
                assert(tokens[m - 1].kind == TokenKind::Comma || tokens[m - 1].kind is Operand);
            }
        }
    }
}

/// What loading from `i` on loads is what was loaded before, followed by more.
pub(crate) proof fn lemma_parse_from_prefix(tokens: Seq<TokenView>, labels: Seq<(Seq<char>, LabelView)>, i: int, bytes: Seq<u8>)
    ensures
        parse_from(tokens, labels, i, bytes) matches ParseOutcome::Loaded(b) ==> bytes.len() <= b.len()
            && b.take(bytes.len() as int) == bytes,
    decreases tokens.len() - i,
{
    if 0 <= i < tokens.len() {
        match tokens[i].kind {
            TokenKind::Opcode(_) => {
                lemma_instruction_progress(tokens, labels, i);
                if let Ok((next, b)) = parse_instruction(tokens, labels, i) {
                    lemma_parse_from_prefix(tokens, labels, next, bytes + b);
                    if let ParseOutcome::Loaded(r) = parse_from(tokens, labels, next, bytes + b) {
                        assert(r.take(bytes.len() as int) =~= (bytes + b).take(bytes.len() as int));
                        assert((bytes + b).take(bytes.len() as int) =~= bytes);
                    }
                }
            },
            TokenKind::Newline | TokenKind::Semicolon => {
                lemma_parse_from_prefix(tokens, labels, i + 1, bytes);
            },
            _ => {},
        }
    } else {
        assert(bytes.take(bytes.len() as int) =~= bytes);
    }
}

// ---------------------------------------------------------------------------
// Every signature of the instruction set loads.

/// The operand of kind `a` whose value is 0.
pub open spec fn zero_operand(a: SignatureArgument) -> Operand {
    match a {
        SignatureArgument::Register => Operand::Register(0),
        SignatureArgument::MemoryRef => Operand::MemoryRef(0),
        SignatureArgument::Label => Operand::Label,
        SignatureArgument::Literal => Operand::Literal(0),
    }
}

/// A token of kind `kind` with empty text, at line 0 and column 0.
pub open spec fn bare_token(kind: TokenKind) -> TokenView {
    TokenView { kind, lexeme: Seq::empty(), line: 0, col: 0 }
}

/// `, a1, a2, ...`: a comma before each operand of the kinds `s`.
pub open spec fn comma_operands(s: Seq<SignatureArgument>) -> Seq<TokenView>
    decreases s.len(),
{
    if s.len() == 0 {
        Seq::empty()
    } else {
        seq![bare_token(TokenKind::Comma), bare_token(TokenKind::Operand(zero_operand(s[0])))] + comma_operands(
            s.drop_first(),
        )
    }
}

/// The operands of the kinds `s`, separated by commas.
pub open spec fn operand_tokens(s: Seq<SignatureArgument>) -> Seq<TokenView> {
    if s.len() == 0 {
        Seq::empty()
    } else {
        seq![bare_token(TokenKind::Operand(zero_operand(s[0])))] + comma_operands(s.drop_first())
    }
}

/// The instruction `op` with zero operands of the kinds `s`, ended by `;`.
pub open spec fn format_tokens(op: SourceOpcode, s: Seq<SignatureArgument>) -> Seq<TokenView> {
    seq![bare_token(TokenKind::Opcode(op))] + operand_tokens(s) + seq![bare_token(TokenKind::Semicolon)]
}

/// A label table whose one label has empty text and names byte 0.
pub open spec fn blank_labels() -> Seq<(Seq<char>, LabelView)> {
    seq![(Seq::<char>::empty(), LabelView { byte: 0, line: 0, col: 0 })]
}

/// `n` zero bytes.
pub open spec fn zero_bytes(n: nat) -> Seq<u8> {
    Seq::new(n, |k: int| 0u8)
}

proof fn lemma_comma_operands(s: Seq<SignatureArgument>)
    ensures
        comma_operands(s).len() == 2 * s.len(),
        forall|k: int|
            0 <= k < s.len() ==> comma_operands(s)[2 * k] == bare_token(TokenKind::Comma) && comma_operands(s)[2 * k
                + 1] == bare_token(TokenKind::Operand(zero_operand(#[trigger] s[k]))),
    decreases s.len(),
{
    if s.len() > 0 {
        lemma_comma_operands(s.drop_first());
        assert forall|k: int| 0 <= k < s.len() implies comma_operands(s)[2 * k] == bare_token(TokenKind::Comma)
            && comma_operands(s)[2 * k + 1] == bare_token(TokenKind::Operand(zero_operand(#[trigger] s[k]))) by {
            if k > 0 {
                assert(s.drop_first()[k - 1] == s[k]);
                assert(comma_operands(s)[2 * k] == comma_operands(s.drop_first())[2 * (k - 1)]);
                assert(comma_operands(s)[2 * k + 1] == comma_operands(s.drop_first())[2 * (k - 1) + 1]);
            }
        }
    }
}

proof fn lemma_gather_format(t: Seq<TokenView>, pos: int, acc: Seq<(Operand, TokenView)>, s: Seq<SignatureArgument>)
    requires
        0 <= pos,
        pos + 2 * s.len() < t.len(),
        forall|k: int|
            0 <= k < s.len() ==> t[pos + 2 * k] == bare_token(TokenKind::Comma) && t[pos + 2 * k + 1] == bare_token(
                TokenKind::Operand(zero_operand(#[trigger] s[k])),
            ),
        t[pos + 2 * s.len()].kind == TokenKind::Semicolon,
    ensures
        gather_more(t, pos, acc) == Ok::<(Seq<(Operand, TokenView)>, int), ParserErrorView>(
            (acc + Seq::new(s.len(), |k: int| (zero_operand(s[k]), bare_token(TokenKind::Comma))), pos + 2 * s.len()),
        ),
    decreases s.len(),
{
    let pairs = Seq::new(s.len(), |k: int| (zero_operand(s[k]), bare_token(TokenKind::Comma)));
    if s.len() == 0 {
        assert(acc + pairs =~= acc);
    } else {
        assert(t[pos] == bare_token(TokenKind::Comma));
        assert(t[pos + 1] == bare_token(TokenKind::Operand(zero_operand(s[0]))));
        let rest = s.drop_first();
        let acc2 = acc.push((zero_operand(s[0]), t[pos]));
        assert forall|k: int| 0 <= k < rest.len() implies t[pos + 2 + 2 * k] == bare_token(TokenKind::Comma) && t[pos
            + 2 + 2 * k + 1] == bare_token(TokenKind::Operand(zero_operand(#[trigger] rest[k]))) by {
            assert(rest[k] == s[k + 1]);
            assert(t[pos + 2 * (k + 1)] == bare_token(TokenKind::Comma));
            assert(t[pos + 2 * (k + 1) + 1] == bare_token(TokenKind::Operand(zero_operand(s[k + 1]))));
        }
        lemma_gather_format(t, pos + 2, acc2, rest);
        let pairs2 = Seq::new(rest.len(), |k: int| (zero_operand(rest[k]), bare_token(TokenKind::Comma)));
        assert(acc2 + pairs2 =~= acc + pairs);
    }
}

proof fn lemma_encode_zeros(ops: Seq<(Operand, TokenView)>)
    requires
        forall|k: int|
            0 <= k < ops.len() ==> (#[trigger] ops[k]).1.lexeme == Seq::<char>::empty() && (ops[k].0
                == Operand::Register(0) || ops[k].0 == Operand::MemoryRef(0) || ops[k].0 == Operand::Literal(0)
                || ops[k].0 == Operand::Label),
    ensures
        encode_operands(blank_labels(), ops) == Ok::<Seq<u8>, (ParserErrorView, int)>(zero_bytes(ops.len())),
    decreases ops.len(),
{
    if ops.len() == 0 {
        assert(zero_bytes(0) =~= Seq::<u8>::empty());
    } else {
        let rest = ops.drop_first();
        assert forall|k: int| 0 <= k < rest.len() implies (#[trigger] rest[k]).1.lexeme == Seq::<char>::empty() && (
        rest[k].0 == Operand::Register(0) || rest[k].0 == Operand::MemoryRef(0) || rest[k].0 == Operand::Literal(0)
            || rest[k].0 == Operand::Label) by {
            assert(rest[k] == ops[k + 1]);
        }
        lemma_encode_zeros(rest);
        assert(ops[0].1.lexeme == Seq::<char>::empty());
        assert(find_label(blank_labels(), ops[0].1.lexeme) == Some(blank_labels()[0].1));
        assert(operand_byte(blank_labels(), ops[0].0, ops[0].1) == Some(0u8));
        assert(seq![0u8] + zero_bytes(rest.len()) =~= zero_bytes(ops.len()));
    }
}

/// Every signature of every opcode in the instruction set (each entry of its
/// `signature_listing`) loads: the
/// instruction with zero operands of those kinds (a label operand naming a
/// label of byte 0) loads as its runtime opcode byte followed by one zero
/// byte per operand.
pub proof fn lemma_every_signature_loads(op: SourceOpcode, sig: Seq<SignatureArgument>)
    requires
        standard_signature(op, sig) is Some,
    ensures
        spec_parse(format_tokens(op, sig), blank_labels()) == ParseOutcome::Loaded(
            seq![standard_signature(op, sig)->0.spec_code()] + zero_bytes(sig.len()),
        ),
{
    let t = format_tokens(op, sig);
    let n = sig.len() as int;
    let rt = standard_signature(op, sig)->0;
    let code_bytes = seq![rt.spec_code()] + zero_bytes(sig.len());
    assert(t[0] == bare_token(TokenKind::Opcode(op)));
    if n == 0 {
        assert(operand_tokens(sig) =~= Seq::<TokenView>::empty());
        assert(t.len() == 2);
        assert(t[1] == bare_token(TokenKind::Semicolon));
        assert(sig =~= Seq::<SignatureArgument>::empty());
        assert(signature_of(operands_of(Seq::<(Operand, TokenView)>::empty())) =~= sig);
        assert(gather_operands(t, 1) == Ok::<(Seq<(Operand, TokenView)>, int), ParserErrorView>((Seq::empty(), 1)));
        assert(parse_instruction(t, blank_labels(), 0) == Ok::<(int, Seq<u8>), (ParserErrorView, int)>(
            (2, seq![rt.spec_code()] + Seq::<u8>::empty()),
        ));
        assert(seq![rt.spec_code()] + Seq::<u8>::empty() =~= code_bytes);
        assert(parse_from(t, blank_labels(), 2, Seq::<u8>::empty() + code_bytes) == ParseOutcome::Loaded(
            Seq::<u8>::empty() + code_bytes,
        ));
        assert(Seq::<u8>::empty() + code_bytes =~= code_bytes);
    } else {
        let rest = sig.drop_first();
        lemma_comma_operands(rest);
        assert(t.len() == 2 * n + 1);
        assert(t[1] == bare_token(TokenKind::Operand(zero_operand(sig[0]))));
        assert(t[2 * n] == bare_token(TokenKind::Semicolon));
        assert forall|k: int| 0 <= k < rest.len() implies t[2 + 2 * k] == bare_token(TokenKind::Comma) && t[2 + 2 * k
            + 1] == bare_token(TokenKind::Operand(zero_operand(#[trigger] rest[k]))) by {
            assert(t[2 + 2 * k] == comma_operands(rest)[2 * k]);
            assert(t[2 + 2 * k + 1] == comma_operands(rest)[2 * k + 1]);
        }
        let first = (zero_operand(sig[0]), t[1]);
        lemma_gather_format(t, 2, seq![first], rest);
        let ops = seq![first] + Seq::new(rest.len(), |k: int| (zero_operand(rest[k]), bare_token(TokenKind::Comma)));
        assert(gather_operands(t, 1) == Ok::<(Seq<(Operand, TokenView)>, int), ParserErrorView>((ops, 2 * n)));
        assert(ops.len() == n);
        assert forall|k: int| 0 <= k < ops.len() implies (#[trigger] ops[k]).1.lexeme == Seq::<char>::empty() && (
        ops[k].0 == Operand::Register(0) || ops[k].0 == Operand::MemoryRef(0) || ops[k].0 == Operand::Literal(0)
            || ops[k].0 == Operand::Label) by {
            if k > 0 {
                assert(ops[k] == (zero_operand(rest[k - 1]), bare_token(TokenKind::Comma)));
            }
        }
        lemma_encode_zeros(ops);
        assert forall|k: int| 0 <= k < n implies #[trigger] signature_of(operands_of(ops))[k] == sig[k] by {
            if k > 0 {
                assert(ops[k] == (zero_operand(rest[k - 1]), bare_token(TokenKind::Comma)));
                assert(rest[k - 1] == sig[k]);
            }
        }
        assert(signature_of(operands_of(ops)) =~= sig);
        assert(parse_instruction(t, blank_labels(), 0) == Ok::<(int, Seq<u8>), (ParserErrorView, int)>(
            (2 * n + 1, code_bytes),
        ));
        assert(parse_from(t, blank_labels(), 2 * n + 1, Seq::<u8>::empty() + code_bytes) == ParseOutcome::Loaded(
            Seq::<u8>::empty() + code_bytes,
        ));
        assert(Seq::<u8>::empty() + code_bytes =~= code_bytes);
    }
}

/// The operand and token pairs of an instruction, by value.
pub open spec fn pair_views(ops: Seq<(Operand, Token)>) -> Seq<(Operand, TokenView)> {
    ops.map_values(|p: (Operand, Token)| (p.0, p.1@))
}

/// Bytes `done` already loaded in front of the outcome of loading the rest.
pub open spec fn after(done: Seq<u8>, rest: Result<Seq<u8>, (ParserErrorView, int)>) -> Result<
    Seq<u8>,
    (ParserErrorView, int),
> {
    match rest {
        Ok(bs) => Ok(done + bs),
        Err((e, k)) => Err((e, k + done.len())),
    }
}

/// Checks a token sequence and loads the program it describes into a
/// 256-byte memory image, resolving label operands through `labels`.
pub struct Parser {
    tokens: Vec<Token>,
    labels: Vec<(String, LabelDefinition)>,
    tree: SignatureTree,
    pos: usize,
    memory: [u8; 256],
    written: usize,
}

impl Parser {
    spec fn wf(self) -> bool {
        &&& self.written <= 256
        &&& forall|k: int| self.written <= k < 256 ==> self.memory@[k] == 0u8
        &&& forall|op: SourceOpcode, p: Seq<SignatureArgument>|
            #[trigger] self.tree.lookup(op, p) == standard_signature(op, p)
    }

    spec fn loaded(self) -> Seq<u8> {
        self.memory@.take(self.written as int)
    }

    spec fn tv(self) -> Seq<TokenView> {
        token_views(self.tokens@)
    }

    spec fn lv(self) -> Seq<(Seq<char>, LabelView)> {
        label_views(self.labels@)
    }

    spec fn same_input(self, other: Self) -> bool {
        self.tokens == other.tokens && self.labels == other.labels && self.tree == other.tree
    }

    /// Checks the tokens and loads the program. The result is the memory
    /// image, or the first error met.
    pub fn parse(tokens: Vec<Token>, labels: Vec<(String, LabelDefinition)>) -> (res: Result<[u8; 256], ParserError>)
        requires
            fits_in_memory(spec_parse(token_views(tokens@), label_views(labels@))),
        ensures
            match spec_parse(token_views(tokens@), label_views(labels@)) {
                ParseOutcome::Loaded(b) => res matches Ok(m) && m@ == memory_image(b),
                ParseOutcome::Failed(e, _) => res matches Err(x) && x@ == e,
            },
    {
        let mut parser = Parser { tokens, labels, tree: signature_tree(), pos: 0, memory: [0u8; 256], written: 0 };
        assert(parser.loaded() =~= Seq::<u8>::empty());
        match parser.internal_parse() {
            Ok(()) => {
                assert(parser.memory@ =~= memory_image(parser.loaded()));
                Ok(parser.memory)
            },
            Err(e) => Err(e),
        }
    }

    fn internal_parse(&mut self) -> (res: Result<(), ParserError>)
        requires
            old(self).wf(),
            old(self).pos == 0,
            fits_in_memory(parse_from(old(self).tv(), old(self).lv(), 0, old(self).loaded())),
        ensures
            final(self).wf(),
            match parse_from(old(self).tv(), old(self).lv(), 0, old(self).loaded()) {
                ParseOutcome::Loaded(b) => res is Ok && final(self).loaded() == b,
                ParseOutcome::Failed(e, _) => res matches Err(x) && x@ == e,
            },
    {
        let ghost outcome = parse_from(self.tv(), self.lv(), 0, self.loaded());
        while self.pos < self.tokens.len()
            invariant
                self.wf(),
                self.tokens == old(self).tokens,
                self.labels == old(self).labels,
                self.pos <= self.tokens@.len(),
                outcome == parse_from(old(self).tv(), old(self).lv(), 0, old(self).loaded()),
                parse_from(self.tv(), self.lv(), self.pos as int, self.loaded()) == outcome,
                fits_in_memory(outcome),
            decreases self.tokens@.len() - self.pos,
        {
            let i = self.pos;
            let kind = self.tokens[i].kind;
            match kind {
                TokenKind::Opcode(opcode) => {
                    let ghost before = self.loaded();
                    proof {
                        lemma_instruction_progress(self.tv(), self.lv(), i as int);
                        if let Ok((next, b)) = parse_instruction(self.tv(), self.lv(), i as int) {
                            lemma_parse_from_grows(self.tv(), self.lv(), next, before + b);
                        }
                    }
                    let opcode_token = self.tokens[i].duplicate();
                    self.pos = i + 1;
                    match self.parse_opcode(opcode, opcode_token) {
                        Ok(()) => {},
                        Err(e) => {
                            return Err(e);
                        },
                    }
                },
                TokenKind::Newline | TokenKind::Semicolon => {
                    self.pos = i + 1;
                },
                _ => {
                    let got = self.tokens[i].duplicate();
                    return Err(ParserError::ExpectedOpcode(Box::new(ExpectedOpcode { got })));
                },
            }
        }
        Ok(())
    }

    fn consume_operand(&mut self) -> (res: Result<Operand, ParserError>)
        requires
            old(self).pos <= old(self).tokens@.len(),
        ensures
            final(self).same_input(*old(self)),
            final(self).pos <= final(self).tokens@.len(),
            final(self).memory == old(self).memory,
            final(self).written == old(self).written,
            ({
                let tv = old(self).tv();
                let p = old(self).pos as int;
                if p < tv.len() && tv[p].kind is Operand {
                    res == Ok::<Operand, ParserError>(tv[p].kind->Operand_0) && final(self).pos == p + 1
                } else {
                    final(self).pos == p && (res matches Err(x) && x@ == (ParserErrorView::ExpectedOperand {
                        got: if p < tv.len() {
                            Some(tv[p])
                        } else {
                            None
                        },
                    }))
                }
            }),
    {
        if self.pos < self.tokens.len() {
            match self.tokens[self.pos].kind {
                TokenKind::Operand(operand) => {
                    self.pos = self.pos + 1;
                    Ok(operand)
                },
                _ => {
                    let got = self.tokens[self.pos].duplicate();
                    Err(ParserError::ExpectedOperand(Box::new(ExpectedOperand { got: Some(got) })))
                },
            }
        } else {
            Err(ParserError::ExpectedOperand(Box::new(ExpectedOperand { got: None })))
        }
    }

    fn write_memory(&mut self, val: u8)
        requires
            old(self).wf(),
            old(self).written < 256,
        ensures
            final(self).wf(),
            final(self).same_input(*old(self)),
            final(self).pos == old(self).pos,
            final(self).loaded() == old(self).loaded().push(val),
    {
        let w = self.written;
        self.memory[w] = val;
        self.written = w + 1;
        assert(self.loaded() =~= old(self).loaded().push(val));
    }

    fn parse_opcode(&mut self, source_opcode: SourceOpcode, opcode_token: Token) -> (res: Result<(), ParserError>)
        requires
            old(self).wf(),
            1 <= old(self).pos <= old(self).tokens@.len(),
            old(self).tv()[old(self).pos - 1].kind == TokenKind::Opcode(source_opcode),
            opcode_token@ == old(self).tv()[old(self).pos - 1],
            match parse_instruction(old(self).tv(), old(self).lv(), old(self).pos - 1) {
                Ok((_, b)) => old(self).loaded().len() + b.len() <= 256,
                Err((_, k)) => old(self).loaded().len() + k <= 256,
            },
        ensures
            final(self).wf(),
            final(self).same_input(*old(self)),
            final(self).pos <= final(self).tokens@.len(),
            match parse_instruction(old(self).tv(), old(self).lv(), old(self).pos - 1) {
                Ok((next, b)) => res is Ok && final(self).pos == next && final(self).loaded() == old(self).loaded() + b,
                Err((e, _)) => res matches Err(x) && x@ == e,
            },
    {
        let ghost tv = self.tv();
        let ghost lv = self.lv();
        let ghost i = self.pos - 1;
        let ghost before = self.loaded();
        let ghost instruction = parse_instruction(tv, lv, i);
        let mut ops: Vec<(Operand, Token)> = Vec::new();
        // The first operand needs no comma before it.
        if self.pos < self.tokens.len() {
            if let TokenKind::Operand(operand) = self.tokens[self.pos].kind {
                let token = self.tokens[self.pos].duplicate();
                ops.push((operand, token));
                self.pos = self.pos + 1;
                assert(pair_views(ops@) =~= seq![(operand, tv[i + 1])]);
                // Operands after the first, each introduced by a comma.
                loop
                    invariant
                        self.wf(),
                        self.same_input(*old(self)),
                        self.loaded() == before,
                        tv == self.tv(),
                        lv == self.lv(),
                        self.pos <= self.tokens@.len(),
                        gather_operands(tv, i + 1) == gather_more(tv, self.pos as int, pair_views(ops@)),
                        i == old(self).pos - 1,
                        instruction == parse_instruction(tv, lv, i),
                    ensures
                        self.pos >= self.tokens@.len() || tv[self.pos as int].kind != TokenKind::Comma,
                    decreases self.tokens@.len() - self.pos,
                {
                    if self.pos >= self.tokens.len() || self.tokens[self.pos].kind != TokenKind::Comma {
                        break;
                    }
                    let comma = self.tokens[self.pos].duplicate();
                    assert(tv[self.pos as int].kind == TokenKind::Comma);
                    let ghost p0 = self.pos as int;
                    self.pos = self.pos + 1;
                    match self.consume_operand() {
                        Ok(operand) => {
                            let ghost prev = ops@;
                            ops.push((operand, comma));
                            assert(pair_views(ops@) =~= pair_views(prev).push((operand, tv[self.pos - 2])));
                        },
                        Err(e) => {
                            assert(instruction == Err::<(int, Seq<u8>), (ParserErrorView, int)>((e@, 0)));
                            return Err(e);
                        },
                    }
                }
            } else {
                assert(pair_views(ops@) =~= Seq::<(Operand, TokenView)>::empty());
            }
        } else {
            assert(pair_views(ops@) =~= Seq::<(Operand, TokenView)>::empty());
        }
        let ghost pv = pair_views(ops@);
        assert(gather_operands(tv, i + 1) == Ok::<(Seq<(Operand, TokenView)>, int), ParserErrorView>((pv, self.pos as int)));
        // The line delimiter.
        if self.pos >= self.tokens.len() {
            return Err(
                ParserError::ExpectedTokenKind(
                    Box::new(ExpectedTokenKind { candidates: vec![TokenKind::Semicolon, TokenKind::Newline], got: None }),
                ),
            );
        }
        match self.tokens[self.pos].kind {
            TokenKind::Newline | TokenKind::Semicolon => {
                self.pos = self.pos + 1;
            },
            TokenKind::Operand(_) => {
                let got = self.tokens[self.pos].duplicate();
                let candidates = vec![TokenKind::Comma];
                assert(candidates@ =~= seq![TokenKind::Comma]);
                return Err(ParserError::ExpectedTokenKind(Box::new(ExpectedTokenKind { candidates, got: Some(got) })));
            },
            _ => {
                let got = self.tokens[self.pos].duplicate();
                return Err(
                    ParserError::ExpectedTokenKind(
                        Box::new(
                            ExpectedTokenKind {
                                candidates: vec![TokenKind::Semicolon, TokenKind::Newline],
                                got: Some(got),
                            },
                        ),
                    ),
                );
            },
        }
        // The operands must form a signature of the opcode.
        let mut operands: Vec<Operand> = Vec::new();
        let mut k: usize = 0;
        while k < ops.len()
            invariant
                k <= ops@.len(),
                pv == pair_views(ops@),
                operands@ =~= operands_of(pv).take(k as int),
            decreases ops@.len() - k,
        {
            operands.push(ops[k].0);
            k = k + 1;
        }
        assert(operands@ =~= operands_of(pv));
        let runtime_opcode = match self.tree.matches_signature(source_opcode, operands.as_slice()) {
            Some(r) => r,
            None => {
                return Err(
                    ParserError::InvalidInstructionSignature(
                        Box::new(InvalidInstructionSignature { opcode_token, source_opcode, received: operands }),
                    ),
                );
            },
        };
        assert(instruction == match encode_operands(lv, pv) {
            Ok(bs) => Ok::<(int, Seq<u8>), (ParserErrorView, int)>((self.pos as int, seq![runtime_opcode.spec_code()] + bs)),
            Err((e, j)) => Err((e, j + 1)),
        });
        proof {
            lemma_encode_error_count(lv, pv);
        }
        self.write_memory(runtime_opcode.code());
        let ghost head = before.push(runtime_opcode.spec_code());
        let mut k: usize = 0;
        assert(pv.skip(0) =~= pv);
        assert(after(Seq::empty(), encode_operands(lv, pv)) == encode_operands(lv, pv)) by {
            match encode_operands(lv, pv) {
                Ok(bs) => {
                    assert(Seq::<u8>::empty() + bs =~= bs);
                },
                Err(_) => {},
            }
        }
        while k < ops.len()
            invariant
                self.wf(),
                self.same_input(*old(self)),
                self.pos <= self.tokens@.len(),
                tv == self.tv(),
                lv == self.lv(),
                k <= ops@.len(),
                pv == pair_views(ops@),
                head.len() <= self.loaded().len(),
                i == old(self).pos - 1,
                instruction == parse_instruction(tv, lv, i),
                head == before.push(runtime_opcode.spec_code()),
                instruction == match encode_operands(lv, pv) {
                    Ok(bs) => Ok::<(int, Seq<u8>), (ParserErrorView, int)>((self.pos as int, seq![runtime_opcode.spec_code()] + bs)),
                    Err((e, j)) => Err((e, j + 1)),
                },
                self.loaded() == head + self.loaded().skip(head.len() as int),
                self.loaded().skip(head.len() as int).len() == k,
                encode_operands(lv, pv) == after(self.loaded().skip(head.len() as int), encode_operands(lv, pv.skip(k as int))),
                match encode_operands(lv, pv) {
                    Ok(bs) => head.len() + bs.len() <= 256,
                    Err((_, j)) => head.len() + j <= 256,
                },
            decreases ops@.len() - k,
        {
            let ghost done = self.loaded().skip(head.len() as int);
            let ghost rest = pv.skip(k as int);
            assert(rest[0] == pv[k as int]);
            assert(rest.drop_first() =~= pv.skip(k + 1));
            proof {
                lemma_encode_error_count(lv, rest.drop_first());
            }
            let byte = match ops[k].0 {
                Operand::Literal(v) => v,
                Operand::Register(v) => v,
                Operand::MemoryRef(v) => v,
                Operand::Label => match self.label_byte(&ops[k].1.lexeme) {
                    Some(b) => b,
                    None => {
                        let token = ops[k].1.duplicate();
                        return Err(ParserError::InvalidLabel(Box::new(InvalidLabel { token })));
                    },
                },
            };
            assert(operand_byte(lv, pv[k as int].0, pv[k as int].1) == Some(byte));
            self.write_memory(byte);
            proof {
                let d2 = self.loaded().skip(head.len() as int);
                assert(d2 =~= done.push(byte));
                assert(self.loaded() =~= head + d2);
                match encode_operands(lv, rest.drop_first()) {
                    Ok(bs) => {
                        assert(done + (seq![byte] + bs) =~= d2 + bs);
                    },
                    Err(_) => {},
                }
            }
            k = k + 1;
        }
        proof {
            let done = self.loaded().skip(head.len() as int);
            assert(pv.skip(k as int) =~= Seq::<(Operand, TokenView)>::empty());
            assert(done + Seq::<u8>::empty() =~= done);
            assert(self.loaded() =~= before + (seq![runtime_opcode.spec_code()] + done));
        }
        Ok(())
    }

    /// The byte defined for the label `name`, if any.
    fn label_byte(&self, name: &String) -> (res: Option<u8>)
        ensures
            res == (match find_label(self.lv(), name@) {
                Some(d) => Some(d.byte),
                None => None::<u8>,
            }),
    {
        let mut k: usize = 0;
        assert(self.lv().skip(0) =~= self.lv());
        while k < self.labels.len()
            invariant
                k <= self.labels@.len(),
                find_label(self.lv(), name@) == find_label(self.lv().skip(k as int), name@),
            decreases self.labels@.len() - k,
        {
            assert(self.lv().skip(k as int).drop_first() =~= self.lv().skip(k + 1));
            if self.labels[k].0 == *name {
                return Some(self.labels[k].1.byte);
            }
            k = k + 1;
        }
        None
    }
}

} // verus!
