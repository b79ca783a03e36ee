use vstd::prelude::*;
use crate::operand::Operand;
use crate::source_opcode::SourceOpcode;
use crate::token::{Token, TokenKind, TokenView};
use crate::operand::signature_of;
use crate::runtime_opcode::RuntimeOpcode;
use crate::signature::{SignatureArgument, lemma_signature_listing, signature_listing, signature_tree};
use crate::combinations::{Combination, views};
use crate::style::{close_error_message, open_error_message, position_prefix, push_position, styled};

verus! {

/// Errors found while checking the token sequence and loading it.
#[derive(Debug, PartialEq)]
pub enum ParserError {
    /// Expected an opcode but received something else.
    ExpectedOpcode(Box<ExpectedOpcode>),
    /// Expected an operand but received something else.
    ExpectedOperand(Box<ExpectedOperand>),
    /// Expected a token out of a list of possible choices but received something else.
    ExpectedTokenKind(Box<ExpectedTokenKind>),
    /// A label operand that names no label.
    InvalidLabel(Box<InvalidLabel>),
    /// The operands of an instruction form none of its signatures.
    InvalidInstructionSignature(Box<InvalidInstructionSignature>),
    /// The same label has been defined in multiple places.
    LabelDuplicateDefinition(Box<LabelDuplicateDefinition>),
    /// The program exceeds the memory limit (256 bytes).
    ProgramTooLarge,
}

#[derive(Debug, PartialEq)]
pub struct ExpectedOpcode {
    pub got: Token,
}

#[derive(Debug, PartialEq)]
pub struct ExpectedOperand {
    pub got: Option<Token>,
}

#[derive(Debug, PartialEq)]
pub struct ExpectedTokenKind {
    pub candidates: Vec<TokenKind>,
    pub got: Option<Token>,
}

#[derive(Debug, PartialEq)]
pub struct InvalidLabel {
    pub token: Token,
}

#[derive(Debug, PartialEq)]
pub struct InvalidInstructionSignature {
    pub opcode_token: Token,
    pub source_opcode: SourceOpcode,
    pub received: Vec<Operand>,
}

#[derive(Debug, PartialEq)]
pub struct LabelDuplicateDefinition {
    pub name: String,
    pub line: usize,
    pub col: usize,
}

/// The mathematical value of a parser error.
pub enum ParserErrorView {
    ExpectedOpcode { got: TokenView },
    ExpectedOperand { got: Option<TokenView> },
    ExpectedTokenKind { candidates: Seq<TokenKind>, got: Option<TokenView> },
    InvalidLabel { token: TokenView },
    InvalidInstructionSignature { opcode_token: TokenView, source_opcode: SourceOpcode, received: Seq<Operand> },
    LabelDuplicateDefinition { name: Seq<char>, line: int, col: int },
    ProgramTooLarge,
}

pub open spec fn option_token_view(t: Option<Token>) -> Option<TokenView> {
    match t {
        Some(t) => Some(t@),
        None => None,
    }
}

impl View for ParserError {
    type V = ParserErrorView;

    open spec fn view(&self) -> ParserErrorView {
        match self {
            ParserError::ExpectedOpcode(e) => ParserErrorView::ExpectedOpcode { got: e.got@ },
            ParserError::ExpectedOperand(e) => ParserErrorView::ExpectedOperand { got: option_token_view(e.got) },
            ParserError::ExpectedTokenKind(e) => ParserErrorView::ExpectedTokenKind {
                candidates: e.candidates@,
                got: option_token_view(e.got),
            },
            ParserError::InvalidLabel(e) => ParserErrorView::InvalidLabel { token: e.token@ },
            ParserError::InvalidInstructionSignature(e) => ParserErrorView::InvalidInstructionSignature {
                opcode_token: e.opcode_token@,
                source_opcode: e.source_opcode,
                received: e.received@,
            },
            ParserError::LabelDuplicateDefinition(e) => ParserErrorView::LabelDuplicateDefinition {
                name: e.name@,
                line: e.line as int,
                col: e.col as int,
            },
            ParserError::ProgramTooLarge => ParserErrorView::ProgramTooLarge,
        }
    }
}

// ---------------------------------------------------------------------------
// Messages.

/// The descriptions of argument kinds, separated by `, `.
pub open spec fn joined_descriptions(args: Seq<SignatureArgument>) -> Seq<char>
    decreases args.len(),
{
    if args.len() == 0 {
        Seq::empty()
    } else if args.len() == 1 {
        args[0].spec_description()
    } else {
        joined_descriptions(args.drop_last()) + ", "@ + args.last().spec_description()
    }
}

/// `• OP args`: one signature of `op` as it is listed.
pub open spec fn listing_line(op: SourceOpcode, sig: Seq<SignatureArgument>) -> Seq<char> {
    "• "@ + op.spec_name() + " "@ + joined_descriptions(sig)
}

/// The listed signatures of `op`, one per line.
pub open spec fn listing_lines(op: SourceOpcode, s: Seq<(RuntimeOpcode, Seq<SignatureArgument>)>) -> Seq<char>
    decreases s.len(),
{
    if s.len() == 0 {
        Seq::empty()
    } else if s.len() == 1 {
        listing_line(op, s[0].1)
    } else {
        listing_lines(op, s.drop_last()) + "\n"@ + listing_line(op, s.last().1)
    }
}

/// The token kinds as a bulleted list, each item ending in a newline.
pub open spec fn bullet_list(kinds: Seq<TokenKind>) -> Seq<char>
    decreases kinds.len(),
{
    if kinds.len() == 0 {
        Seq::empty()
    } else {
        bullet_list(kinds.drop_last()) + "• "@ + kinds.last().spec_display() + "\n"@
    }
}

/// Where the offending token stands, when there is one.
pub open spec fn place_of(got: Option<TokenView>) -> Seq<char> {
    match got {
        Some(t) => position_prefix(t.line as nat, t.col as nat),
        None => Seq::empty(),
    }
}

/// `but found ...`: the offending token, or the end of the input.
pub open spec fn found(got: Option<TokenView>) -> Seq<char> {
    match got {
        Some(t) => "but found token "@ + t.debug_repr(),
        None => "but found EOF"@,
    }
}

impl ParserErrorView {
    /// The text of the error message.
    pub open spec fn spec_message(self) -> Seq<char> {
        match self {
            ParserErrorView::ExpectedOpcode { got } => place_of(Some(got)) + "Expected instruction opcode "@ + found(
                Some(got),
            ),
            ParserErrorView::ExpectedOperand { got } => place_of(got) + "Expected operand "@ + found(got),
            ParserErrorView::ExpectedTokenKind { candidates, got } => if candidates.len() == 1 {
                place_of(got) + "Expected "@ + candidates[0].spec_display() + " "@ + found(got)
            } else if candidates.len() == 2 {
                place_of(got) + "Expected "@ + candidates[0].spec_display() + " or "@ + candidates[1].spec_display()
                    + " "@ + found(got)
            } else {
                place_of(got) + "Expected one of the following:\n"@ + bullet_list(candidates) + found(got)
            },
            ParserErrorView::InvalidLabel { token } => place_of(Some(token)) + "No label exists with name: "@
                + token.debug_repr(),
            ParserErrorView::InvalidInstructionSignature { opcode_token, source_opcode, received } => place_of(
                Some(opcode_token),
            ) + "'"@ + source_opcode.spec_name() + " "@ + joined_descriptions(signature_of(received))
                + "' is not a valid signature! Potential signatures are listed below:\n"@ + listing_lines(
                source_opcode,
                signature_listing(source_opcode),
            ),
            ParserErrorView::LabelDuplicateDefinition { name, line, col } => position_prefix(line as nat, col as nat)
                + "Label '"@ + name + "' defined multiple times"@,
            ParserErrorView::ProgramTooLarge => "Program exceeds memory limit (256 bytes)"@,
        }
    }
}

fn push_place(s: &mut String, got: &Option<Token>)
    ensures
        final(s)@ == old(s)@ + place_of(option_token_view(*got)),
{
    match got {
        Some(t) => push_position(s, t.line, t.col),
        None => {
            assert(s@ =~= old(s)@ + Seq::<char>::empty());
        },
    }
}

fn push_found(s: &mut String, got: &Option<Token>)
    ensures
        final(s)@ == old(s)@ + found(option_token_view(*got)),
{
    match got {
        Some(t) => {
            s.append("but found token ");
            let repr = t.get_token_debug_repr();
            s.append(repr.as_str());
            assert(s@ =~= old(s)@ + found(option_token_view(*got)));
        },
        None => {
            s.append("but found EOF");
        },
    }
}

fn push_bullet_list(s: &mut String, kinds: &Vec<TokenKind>)
    ensures
        final(s)@ == old(s)@ + bullet_list(kinds@),
{
    let mut k: usize = 0;
    assert(kinds@.take(0) =~= Seq::<TokenKind>::empty());
    assert(s@ =~= old(s)@ + bullet_list(kinds@.take(0)));
    while k < kinds.len()
        invariant
            k <= kinds@.len(),
            s@ == old(s)@ + bullet_list(kinds@.take(k as int)),
        decreases kinds@.len() - k,
    {
        let ghost before = s@;
        s.append("• ");
        let shown = kinds[k].to_display_string();
        s.append(shown.as_str());
        s.append("\n");
        assert(kinds@.take(k + 1).drop_last() =~= kinds@.take(k as int));
        assert(s@ =~= old(s)@ + bullet_list(kinds@.take(k + 1)));
        k = k + 1;
    }
    assert(kinds@.take(k as int) =~= kinds@);
}

fn push_operand_kinds(s: &mut String, operands: &Vec<Operand>)
    ensures
        final(s)@ == old(s)@ + joined_descriptions(signature_of(operands@)),
{
    let ghost args = signature_of(operands@);
    let mut k: usize = 0;
    assert(args.take(0) =~= Seq::<SignatureArgument>::empty());
    assert(s@ =~= old(s)@ + joined_descriptions(args.take(0)));
    while k < operands.len()
        invariant
            k <= operands@.len(),
            args == signature_of(operands@),
            s@ == old(s)@ + joined_descriptions(args.take(k as int)),
        decreases operands@.len() - k,
    {
        if k > 0 {
            s.append(", ");
        }
        let d = operands[k].get_signature_argument().description();
        s.append(d);
        assert(args.take(k + 1).drop_last() =~= args.take(k as int));
        assert(args.take(k + 1).last() == args[k as int]);
        assert(s@ =~= old(s)@ + joined_descriptions(args.take(k + 1)));
        k = k + 1;
    }
    assert(args.take(k as int) =~= args);
}

fn push_signature_kinds(s: &mut String, args: &Vec<SignatureArgument>)
    ensures
        final(s)@ == old(s)@ + joined_descriptions(args@),
{
    let mut k: usize = 0;
    assert(args@.take(0) =~= Seq::<SignatureArgument>::empty());
    assert(s@ =~= old(s)@ + joined_descriptions(args@.take(0)));
    while k < args.len()
        invariant
            k <= args@.len(),
            s@ == old(s)@ + joined_descriptions(args@.take(k as int)),
        decreases args@.len() - k,
    {
        if k > 0 {
            s.append(", ");
        }
        s.append(args[k].description());
        assert(args@.take(k + 1).drop_last() =~= args@.take(k as int));
        assert(s@ =~= old(s)@ + joined_descriptions(args@.take(k + 1)));
        k = k + 1;
    }
    assert(args@.take(k as int) =~= args@);
}

fn push_listing(s: &mut String, op: SourceOpcode, listing: &Vec<Combination>)
    ensures
        final(s)@ == old(s)@ + listing_lines(op, views(listing@)),
{
    let ghost v = views(listing@);
    let mut k: usize = 0;
    assert(v.take(0) =~= Seq::<(RuntimeOpcode, Seq<SignatureArgument>)>::empty());
    assert(s@ =~= old(s)@ + listing_lines(op, v.take(0)));
    while k < listing.len()
        invariant
            k <= listing@.len(),
            v == views(listing@),
            s@ == old(s)@ + listing_lines(op, v.take(k as int)),
        decreases listing@.len() - k,
    {
        let ghost before = s@;
        if k > 0 {
            s.append("\n");
        }
        let ghost mid = s@;
        s.append("• ");
        s.append(op.name());
        s.append(" ");
        push_signature_kinds(s, &listing[k].1);
        assert(s@ =~= mid + listing_line(op, v[k as int].1));
        assert(v.take(k + 1).drop_last() =~= v.take(k as int));
        assert(v.take(k + 1).last() == v[k as int]);
        assert(s@ =~= old(s)@ + listing_lines(op, v.take(k + 1)));
        k = k + 1;
    }
    assert(v.take(k as int) =~= v);
}

impl ParserError {
    /// The error message as it is shown: red and bold.
    pub fn to_display_string(&self) -> (res: String)
        requires
            self@ matches ParserErrorView::ExpectedTokenKind { candidates, got } ==> candidates.len() > 0,
        ensures
            res@ == styled(self@.spec_message()),
    {
        let mut s = open_error_message();
        let ghost start = s@;
        match self {
            ParserError::ExpectedOpcode(e) => {
                push_position(&mut s, e.got.line, e.got.col);
                s.append("Expected instruction opcode ");
                let got = Some(e.got.duplicate());
                push_found(&mut s, &got);
            },
            ParserError::ExpectedOperand(e) => {
                push_place(&mut s, &e.got);
                s.append("Expected operand ");
                push_found(&mut s, &e.got);
            },
            ParserError::ExpectedTokenKind(e) => {
                push_place(&mut s, &e.got);
                if e.candidates.len() == 1 {
                    s.append("Expected ");
                    let c0 = e.candidates[0].to_display_string();
                    s.append(c0.as_str());
                    s.append(" ");
                } else if e.candidates.len() == 2 {
                    s.append("Expected ");
                    let c0 = e.candidates[0].to_display_string();
                    s.append(c0.as_str());
                    s.append(" or ");
                    let c1 = e.candidates[1].to_display_string();
                    s.append(c1.as_str());
                    s.append(" ");
                } else {
                    s.append("Expected one of the following:\n");
                    push_bullet_list(&mut s, &e.candidates);
                }
                push_found(&mut s, &e.got);
            },
            ParserError::InvalidLabel(e) => {
                push_position(&mut s, e.token.line, e.token.col);
                s.append("No label exists with name: ");
                let repr = e.token.get_token_debug_repr();
                s.append(repr.as_str());
            },
            ParserError::InvalidInstructionSignature(e) => {
                push_position(&mut s, e.opcode_token.line, e.opcode_token.col);
                s.append("'");
                s.append(e.source_opcode.name());
                s.append(" ");
                push_operand_kinds(&mut s, &e.received);
                s.append("' is not a valid signature! Potential signatures are listed below:\n");
                let tree = signature_tree();
                let listing = tree.get_all_valid_operand_combinations_for_source_opcode(e.source_opcode);
                proof {
                    let v = views(listing@);
                    assert forall|k: int| 0 <= k < v.len() implies crate::signature::standard_signature(
                        e.source_opcode,
                        (#[trigger] v[k]).1,
                    ) == Some(v[k].0) by {
                        assert(tree.lookup(e.source_opcode, listing@[k].1@) == Some(listing@[k].0));
                    }
                    assert forall|q: Seq<SignatureArgument>|
                        #[trigger] crate::signature::standard_signature(e.source_opcode, q) is Some implies v.contains(
                        (crate::signature::standard_signature(e.source_opcode, q).unwrap(), q),
                    ) by {
                        assert(tree.lookup(e.source_opcode, q) is Some);
                    }
                    lemma_signature_listing(e.source_opcode, v);
                }
                push_listing(&mut s, e.source_opcode, &listing);
            },
            ParserError::LabelDuplicateDefinition(e) => {
                push_position(&mut s, e.line, e.col);
                s.append("Label '");
                s.append(e.name.as_str());
                s.append("' defined multiple times");
            },
            ParserError::ProgramTooLarge => {
                s.append("Program exceeds memory limit (256 bytes)");
            },
        }
        close_error_message(&mut s);
        assert(s@ =~= styled(self@.spec_message()));
        s
    }
}

} // verus!
