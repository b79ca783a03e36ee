use vstd::prelude::*;
use crate::interpreter::{InputTarget, MachineState, StepFault, StepOutcome, REGISTER_COUNT, keeps_program, lemma_program_unchanged};
use crate::operand::{Operand, signature_of};
use crate::parser::{
    ParseOutcome, encode_operands, find_label, gather_more, gather_operands,
    lemma_gather_more_tokens, lemma_instruction_count, lemma_instruction_progress, lemma_instruction_shape,
    lemma_parse_from_prefix, lemma_parse_size, operand_byte, operands_of, parse_from,
    parse_instruction, spec_parse, memory_image,
};
use crate::runtime_opcode::RuntimeOpcode;
use crate::signature::{SignatureArgument, standard_signature};
use crate::source_opcode::SourceOpcode;
use crate::token::{
    TokenKind, TokenView, byte_count, lemma_byte_count_bounds, lemma_byte_count_one, lemma_byte_count_split, starts_line,
};
use crate::tokenizer::{LabelView, lemma_tokenize_output, marks_line_start, registers_valid, spec_tokenize};

verus! {

// ---------------------------------------------------------------------------
// The shape of a loaded program, and why running one never aborts.

/// The kinds of the operands that follow each opcode byte, in order.
pub open spec fn operand_kinds(op: RuntimeOpcode) -> Seq<SignatureArgument> {
    let r = SignatureArgument::Register;
    let m = SignatureArgument::MemoryRef;
    let l = SignatureArgument::Label;
    let n = SignatureArgument::Literal;
    match op {
        RuntimeOpcode::Nop | RuntimeOpcode::Halt => seq![],
        RuntimeOpcode::Ldr | RuntimeOpcode::Str => seq![r, m],
        RuntimeOpcode::AddRegister | RuntimeOpcode::SubRegister | RuntimeOpcode::AndRegister
        | RuntimeOpcode::OrrRegister | RuntimeOpcode::EorRegister | RuntimeOpcode::LslRegister
        | RuntimeOpcode::LsrRegister => seq![r, r, r],
        RuntimeOpcode::AddLiteral | RuntimeOpcode::SubLiteral | RuntimeOpcode::AndLiteral
        | RuntimeOpcode::OrrLiteral | RuntimeOpcode::EorLiteral | RuntimeOpcode::LslLiteral
        | RuntimeOpcode::LsrLiteral => seq![r, r, n],
        RuntimeOpcode::MovRegister | RuntimeOpcode::MvnRegister | RuntimeOpcode::CmpRegister => seq![r, r],
        RuntimeOpcode::MovLiteral | RuntimeOpcode::MvnLiteral | RuntimeOpcode::CmpLiteral => seq![r, n],
        RuntimeOpcode::B | RuntimeOpcode::Beq | RuntimeOpcode::Bne | RuntimeOpcode::Bgt | RuntimeOpcode::Blt => seq![l],
        RuntimeOpcode::PrintRegister | RuntimeOpcode::InputRegister => seq![r],
        RuntimeOpcode::PrintMemory | RuntimeOpcode::InputMemory => seq![m],
    }
}

/// The signature that selects a runtime opcode is that opcode's operand kinds.
pub proof fn lemma_signature_is_operand_kinds(op: SourceOpcode, p: Seq<SignatureArgument>)
    ensures
        standard_signature(op, p) matches Some(rt) ==> p == operand_kinds(rt),
{
    if p.len() == 0 {
        assert(p =~= seq![]);
    }
}

/// Where execution may go: an instruction start, or just past the program.
pub open spec fn is_target(b: Seq<u8>, starts: Set<int>, t: int) -> bool {
    starts.contains(t) || t == b.len()
}

/// An operand byte fits its kind: a register exists, a label names a place
/// where execution may go.
pub open spec fn operand_fits(b: Seq<u8>, starts: Set<int>, kind: SignatureArgument, v: u8) -> bool {
    match kind {
        SignatureArgument::Register => v < REGISTER_COUNT,
        SignatureArgument::Label => is_target(b, starts, v as int),
        _ => true,
    }
}

/// An instruction starts at `s`: a defined opcode byte, its operands within
/// the program and fitting their kinds, and what follows is another place
/// where execution may go.
pub open spec fn instruction_at(b: Seq<u8>, starts: Set<int>, s: int) -> bool {
    &&& 0 <= s < b.len()
    &&& RuntimeOpcode::spec_from_code(b[s]) is Some
    &&& {
        let kinds = operand_kinds(RuntimeOpcode::spec_from_code(b[s])->0);
        &&& s + 1 + kinds.len() <= b.len()
        &&& forall|k: int| 0 <= k < kinds.len() ==> operand_fits(b, starts, kinds[k], #[trigger] b[s + 1 + k])
        &&& is_target(b, starts, s + 1 + kinds.len())
    }
}

/// A program image whose instructions start at `starts`, with execution
/// beginning at one of them (or at the end of an empty program).
pub open spec fn well_formed_image(b: Seq<u8>, starts: Set<int>) -> bool {
    &&& forall|s: int| #[trigger] starts.contains(s) ==> instruction_at(b, starts, s)
    &&& is_target(b, starts, 0)
}

/// A machine running the program image `b`: the program is in memory and the
/// program counter is at a place where execution may go.
pub open spec fn runs_image(st: MachineState, b: Seq<u8>, starts: Set<int>) -> bool {
    &&& st.wf()
    &&& b.len() < 256
    &&& st.program_bytes == b.len()
    &&& forall|k: int| 0 <= k < b.len() ==> #[trigger] st.memory[k] == b[k]
    &&& is_target(b, starts, st.program_counter as int)
}

/// A machine that has just read the opcode byte at `s` of the image `b`,
/// whose operands have the kinds `kinds`.
pub open spec fn at_operands(
    st: MachineState,
    b: Seq<u8>,
    starts: Set<int>,
    s: int,
    kinds: Seq<SignatureArgument>,
) -> bool {
    &&& st.wf()
    &&& b.len() < 256
    &&& st.program_bytes == b.len()
    &&& forall|k: int| 0 <= k < b.len() ==> #[trigger] st.memory[k] == b[k]
    &&& 0 <= s
    &&& st.program_counter == s + 1
    &&& s + 1 + kinds.len() <= b.len()
    &&& forall|k: int| 0 <= k < kinds.len() ==> operand_fits(b, starts, kinds[k], #[trigger] b[s + 1 + k])
    &&& is_target(b, starts, s + 1 + kinds.len())
}

proof fn lemma_operands(st: MachineState, b: Seq<u8>, starts: Set<int>, s: int, kinds: Seq<SignatureArgument>)
    requires
        at_operands(st, b, starts, s, kinds),
    ensures
        kinds.len() > 0 ==> st.memory[s + 1] == b[s + 1] && operand_fits(b, starts, kinds[0], b[s + 1]),
        kinds.len() > 1 ==> st.memory[s + 2] == b[s + 2] && operand_fits(b, starts, kinds[1], b[s + 2]),
        kinds.len() > 2 ==> st.memory[s + 3] == b[s + 3] && operand_fits(b, starts, kinds[2], b[s + 3]),
{
    if kinds.len() > 0 {
        assert(operand_fits(b, starts, kinds[0], b[s + 1 + 0]));
        assert(st.memory[s + 1] == b[s + 1]);
    }
    if kinds.len() > 1 {
        assert(operand_fits(b, starts, kinds[1], b[s + 1 + 1]));
        assert(st.memory[s + 2] == b[s + 2]);
    }
    if kinds.len() > 2 {
        assert(operand_fits(b, starts, kinds[2], b[s + 1 + 2]));
        assert(st.memory[s + 3] == b[s + 3]);
    }
}

/// What executing one instruction of a well formed image gives.
pub open spec fn safe_transition(st: MachineState, t: Result<(MachineState, StepOutcome), StepFault>, b: Seq<u8>, starts: Set<int>, value: u8) -> bool {
    &&& t != Err::<(MachineState, StepOutcome), StepFault>(StepFault::Abort)
    &&& t matches Ok((st2, out)) ==> {
        &&& runs_image(st2, b, starts)
        &&& out matches StepOutcome::Input(InputTarget::Register(r)) ==> r < REGISTER_COUNT
        &&& out matches StepOutcome::Input(target) ==> (st2.store_input(target, value) matches Ok(st3)
            ==> runs_image(st3, b, starts))
    }
}

proof fn lemma_execute_safe(st: MachineState, b: Seq<u8>, starts: Set<int>, s: int, op: RuntimeOpcode, value: u8)
    requires
        at_operands(st, b, starts, s, operand_kinds(op)),
    ensures
        safe_transition(st, st.execute(op), b, starts, value),
{
    lemma_operands(st, b, starts, s, operand_kinds(op));
    lemma_program_unchanged(st, InputTarget::Memory(0), value);
    let t = st.execute(op);
    if let Ok((st2, out)) = t {
        assert(keeps_program(st, st2)) by {
            match op {
                RuntimeOpcode::Str => {},
                _ => {},
            }
        }
        if let StepOutcome::Input(target) = out {
            assert(st2.wf());
            lemma_program_unchanged(st2, target, value);
        }
    }
}

/// Running a well formed program image never aborts: every step reads a
/// defined opcode, names existing registers and branches to an instruction,
/// and afterwards the machine still runs the image; a value asked for by
/// `INPUT` goes to an existing register or to data memory, and storing it
/// keeps the machine running the image.
pub proof fn lemma_well_formed_images_never_abort(st: MachineState, b: Seq<u8>, starts: Set<int>, value: u8)
    requires
        well_formed_image(b, starts),
        runs_image(st, b, starts),
    ensures
        safe_transition(st, st.step(), b, starts, value),
{
    let s = st.program_counter as int;
    if s < b.len() {
        assert(starts.contains(s));
        assert(instruction_at(b, starts, s));
        let op = RuntimeOpcode::spec_from_code(b[s])->0;
        assert(st.memory[s] == b[s]);
        let (st1, byte) = st.fetch()->Ok_0;
        assert(st.step() == st1.execute(op));
        lemma_execute_safe(st1, b, starts, s, op, value);
    }
}

// ---------------------------------------------------------------------------
// Loaded programs are well formed.

/// The bytes at which the opcode tokens load: the number of opcode and
/// operand tokens before each opcode token.
pub open spec fn opcode_starts(tokens: Seq<TokenView>) -> Set<int> {
    Set::new(
        |c: int|
            exists|m: int| 0 <= m < tokens.len() && (#[trigger] tokens[m]).kind is Opcode && c == byte_count(tokens.take(m)),
    )
}

proof fn lemma_take_count(tokens: Seq<TokenView>, i: int, j: int)
    requires
        0 <= i <= j <= tokens.len(),
    ensures
        byte_count(tokens.take(j)) == byte_count(tokens.take(i)) + byte_count(tokens.subrange(i, j)),
{
    lemma_byte_count_split(tokens, 0, i, j);
    assert(tokens.subrange(0, i) =~= tokens.take(i));
    assert(tokens.subrange(0, j) =~= tokens.take(j));
}

/// In a program that loads, the place at an index that begins a line is an
/// opcode token's byte or the end of the program.
proof fn lemma_line_starts_are_targets(
    tokens: Seq<TokenView>,
    labels: Seq<(Seq<char>, LabelView)>,
    i: int,
    bytes: Seq<u8>,
    j: int,
)
    requires
        0 <= i <= j <= tokens.len(),
        j == i || starts_line(tokens, j),
        bytes.len() == byte_count(tokens.take(i)),
        parse_from(tokens, labels, i, bytes) is Loaded,
    ensures
        is_target(parse_from(tokens, labels, i, bytes)->Loaded_0, opcode_starts(tokens), byte_count(tokens.take(j))),
    decreases tokens.len() - i,
{
    let b = parse_from(tokens, labels, i, bytes)->Loaded_0;
    let starts = opcode_starts(tokens);
    if i == tokens.len() {
        assert(j == i);
    } else {
        lemma_take_count(tokens, i, i + 1);
        lemma_byte_count_one(tokens, i);
        match tokens[i].kind {
            TokenKind::Opcode(_) => {
                if j == i {
                    assert(starts.contains(byte_count(tokens.take(j))));
                } else {
                    lemma_instruction_shape(tokens, labels, i);
                    lemma_instruction_count(tokens, labels, i);
                    let (next, bi) = parse_instruction(tokens, labels, i)->Ok_0;
                    if j < next {
                        assert(!starts_line(tokens, j));
                    }
                    lemma_take_count(tokens, i, next);
                    lemma_line_starts_are_targets(tokens, labels, next, bytes + bi, j);
                }
            },
            TokenKind::Newline | TokenKind::Semicolon => {
                if j == i {
                    lemma_line_starts_are_targets(tokens, labels, i + 1, bytes, i + 1);
                } else {
                    lemma_line_starts_are_targets(tokens, labels, i + 1, bytes, j);
                }
            },
            _ => {},
        }
    }
}

proof fn lemma_encode_bytes(labels: Seq<(Seq<char>, LabelView)>, ops: Seq<(Operand, TokenView)>)
    ensures
        encode_operands(labels, ops) matches Ok(bs) ==> bs.len() == ops.len() && forall|k: int|
            0 <= k < ops.len() ==> operand_byte(labels, (#[trigger] ops[k]).0, ops[k].1) == Some(bs[k]),
    decreases ops.len(),
{
    if ops.len() > 0 {
        lemma_encode_bytes(labels, ops.drop_first());
        if let Ok(bs) = encode_operands(labels, ops) {
            assert forall|k: int| 0 <= k < ops.len() implies operand_byte(labels, (#[trigger] ops[k]).0, ops[k].1)
                == Some(bs[k]) by {
                if k > 0 {
                    assert(ops[k] == ops.drop_first()[k - 1]);
                }
            }
        }
    }
}

proof fn lemma_found_label(labels: Seq<(Seq<char>, LabelView)>, name: Seq<char>)
    ensures
        find_label(labels, name) matches Some(d) ==> exists|k: int| 0 <= k < labels.len() && (#[trigger] labels[k]).1 == d,
    decreases labels.len(),
{
    if labels.len() > 0 {
        lemma_found_label(labels.drop_first(), name);
        if let Some(d) = find_label(labels, name) {
            if labels[0].0 == name {
                assert(labels[0].1 == d);
            } else {
                let k = choose|k: int| 0 <= k < labels.drop_first().len() && (#[trigger] labels.drop_first()[k]).1 == d;
                assert(labels[k + 1].1 == d);
            }
        }
    }
}

proof fn lemma_gathered_registers(tokens: Seq<TokenView>, pos: int, acc: Seq<(Operand, TokenView)>)
    requires
        registers_valid(tokens),
        forall|k: int| 0 <= k < acc.len() ==> ((#[trigger] acc[k]).0 matches Operand::Register(r) ==> r < REGISTER_COUNT),
    ensures
        gather_more(tokens, pos, acc) matches Ok((ops, p)) ==> forall|k: int|
            0 <= k < ops.len() ==> ((#[trigger] ops[k]).0 matches Operand::Register(r) ==> r < REGISTER_COUNT),
    decreases tokens.len() - pos,
{
    if 0 <= pos < tokens.len() && tokens[pos].kind == TokenKind::Comma && pos + 1 < tokens.len()
        && tokens[pos + 1].kind is Operand {
        let acc2 = acc.push((tokens[pos + 1].kind->Operand_0, tokens[pos]));
        assert(tokens[pos + 1].kind matches TokenKind::Operand(Operand::Register(r)) ==> r < REGISTER_COUNT);
        assert forall|k: int| 0 <= k < acc2.len() implies ((#[trigger] acc2[k]).0 matches Operand::Register(r) ==> r
            < REGISTER_COUNT) by {
            if k < acc.len() {
                assert(acc2[k] == acc[k]);
            }
        }
        lemma_gathered_registers(tokens, pos + 2, acc2);
    }
}

/// Each opcode token of a program that loads loads a well formed instruction.
proof fn lemma_opcodes_load_instructions(
    tokens: Seq<TokenView>,
    labels: Seq<(Seq<char>, LabelView)>,
    i: int,
    bytes: Seq<u8>,
    m: int,
)
    requires
        0 <= i <= m < tokens.len(),
        tokens[m].kind is Opcode,
        bytes.len() == byte_count(tokens.take(i)),
        parse_from(tokens, labels, i, bytes) is Loaded,
        registers_valid(tokens),
        forall|k: int|
            0 <= k < labels.len() ==> is_target(
                parse_from(tokens, labels, i, bytes)->Loaded_0,
                opcode_starts(tokens),
                (#[trigger] labels[k]).1.byte as int,
            ),
    ensures
        instruction_at(parse_from(tokens, labels, i, bytes)->Loaded_0, opcode_starts(tokens), byte_count(tokens.take(m))),
    decreases tokens.len() - i,
{
    let b = parse_from(tokens, labels, i, bytes)->Loaded_0;
    let starts = opcode_starts(tokens);
    lemma_take_count(tokens, i, i + 1);
    lemma_byte_count_one(tokens, i);
    match tokens[i].kind {
        TokenKind::Opcode(op) => {
            lemma_instruction_shape(tokens, labels, i);
            lemma_instruction_count(tokens, labels, i);
            lemma_instruction_progress(tokens, labels, i);
            let (next, bi) = parse_instruction(tokens, labels, i)->Ok_0;
            lemma_take_count(tokens, i, next);
            lemma_parse_from_prefix(tokens, labels, next, bytes + bi);
            if m > i {
                if m < next {
                    assert(!starts_line(tokens, m));
                    assert(!starts_line(tokens, m + 1) || m + 1 == next);
                    lemma_gather_more_tokens(tokens, i + 2, seq![]);
                    if i + 1 < tokens.len() && tokens[i + 1].kind is Operand {
                        lemma_gather_more_tokens(tokens, i + 2, seq![(tokens[i + 1].kind->Operand_0, tokens[i + 1])]);
                    }
                    assert(false);
                }
                lemma_opcodes_load_instructions(tokens, labels, next, bytes + bi, m);
            } else {
                let j = i + 1;
                let (ops, pos) = gather_operands(tokens, j)->Ok_0;
                let rt = standard_signature(op, signature_of(operands_of(ops)))->0;
                let bs = encode_operands(labels, ops)->Ok_0;
                let kinds = operand_kinds(rt);
                let c = bytes.len() as int;
                crate::runtime_opcode::lemma_code_roundtrip(rt);
                lemma_signature_is_operand_kinds(op, signature_of(operands_of(ops)));
                lemma_encode_bytes(labels, ops);
                assert(bi == seq![rt.spec_code()] + bs);
                assert(b.take((bytes + bi).len() as int) == bytes + bi);
                assert(b[c] == b.take((bytes + bi).len() as int)[c]);
                assert((bytes + bi)[c] == bi[0]);
                assert(b[c] == rt.spec_code());
                assert(RuntimeOpcode::spec_from_code(b[c]) == Some(rt));
                if j < tokens.len() && tokens[j].kind is Operand {
                    assert(tokens[j].kind matches TokenKind::Operand(Operand::Register(r)) ==> r < REGISTER_COUNT);
                    lemma_gathered_registers(tokens, j + 1, seq![(tokens[j].kind->Operand_0, tokens[j])]);
                }
                assert forall|k: int| 0 <= k < kinds.len() implies operand_fits(b, starts, kinds[k], #[trigger] b[c + 1 + k]) by {
                    assert(b[c + 1 + k] == b.take((bytes + bi).len() as int)[c + 1 + k]);
                    assert(b[c + 1 + k] == (bytes + bi)[c + 1 + k]);
                    assert(b[c + 1 + k] == bs[k]);
                    assert(kinds[k] == signature_of(operands_of(ops))[k]);
                    assert(operands_of(ops)[k] == ops[k].0);
                    assert(operand_byte(labels, ops[k].0, ops[k].1) == Some(bs[k]));
                    if ops[k].0 == Operand::Label {
                        lemma_found_label(labels, ops[k].1.lexeme);
                        let d = find_label(labels, ops[k].1.lexeme)->0;
                        let q = choose|q: int| 0 <= q < labels.len() && (#[trigger] labels[q]).1 == d;
                        assert(is_target(b, starts, labels[q].1.byte as int));
                    }
                }
                lemma_line_starts_are_targets(tokens, labels, next, bytes + bi, next);
            }
        },
        TokenKind::Newline | TokenKind::Semicolon => {
            lemma_opcodes_load_instructions(tokens, labels, i + 1, bytes, m);
        },
        _ => {},
    }
}

/// A label names an instruction: in a program that the tokenizer produced and
/// that loads, the byte of every label is where an opcode token loaded, or
/// the first byte after the program.
pub proof fn lemma_labels_name_instructions(input: Seq<char>, tab: int)
    ensures
        spec_tokenize(input, tab) matches Ok(p) ==> (spec_parse(p.tokens, p.labels) matches ParseOutcome::Loaded(b)
            ==> forall|k: int|
            0 <= k < p.labels.len() ==> is_target(b, opcode_starts(p.tokens), (#[trigger] p.labels[k]).1.byte as int)),
{
    lemma_tokenize_output(input, tab);
    if let Ok(p) = spec_tokenize(input, tab) {
        lemma_parse_size(p.tokens, p.labels);
        if let ParseOutcome::Loaded(b) = spec_parse(p.tokens, p.labels) {
            let t = p.tokens;
            let starts = opcode_starts(t);
            assert(t.take(0) =~= Seq::<TokenView>::empty());
            assert(byte_count(t.take(0)) == 0);
            lemma_line_starts_are_targets(t, p.labels, 0, Seq::empty(), 0);
            assert(t.take(t.len() as int) =~= t);
            assert forall|k: int| 0 <= k < p.labels.len() implies is_target(
                b,
                starts,
                (#[trigger] p.labels[k]).1.byte as int,
            ) by {
                let byte = p.labels[k].1.byte;
                assert(marks_line_start(t, byte));
                let j = choose|j: int| 0 <= j <= t.len() && starts_line(t, j) && byte == #[trigger] byte_count(t.take(j)) % 256;
                lemma_line_starts_are_targets(t, p.labels, 0, Seq::empty(), j);
                lemma_take_count(t, j, t.len() as int);
                lemma_byte_count_bounds(t.take(j));
                lemma_byte_count_bounds(t.subrange(j, t.len() as int));
                if byte_count(t.take(j)) < 256 {
                    assert(byte == byte_count(t.take(j)));
                } else {
                    assert(byte == 0);
                }
            }
        }
    }
}

/// A program that the tokenizer produced and the parser loaded is a well
/// formed image, and a machine started on it (program counter 0, the image
/// in memory) runs it; so by `lemma_well_formed_images_never_abort`, running
/// an assembled program never aborts, whatever it reads as input.
pub proof fn lemma_assembled_programs_are_well_formed(input: Seq<char>, tab: int, st: MachineState)
    ensures
        spec_tokenize(input, tab) matches Ok(p) ==> (spec_parse(p.tokens, p.labels) matches ParseOutcome::Loaded(b)
            ==> {
            &&& well_formed_image(b, opcode_starts(p.tokens))
            &&& (st.wf() && b.len() < 256 && st.program_bytes == b.len() && st.program_counter == 0 && st.memory
                == memory_image(b)) ==> runs_image(st, b, opcode_starts(p.tokens))
        }),
{
    lemma_tokenize_output(input, tab);
    if let Ok(p) = spec_tokenize(input, tab) {
        lemma_parse_size(p.tokens, p.labels);
        if let ParseOutcome::Loaded(b) = spec_parse(p.tokens, p.labels) {
            let t = p.tokens;
            let starts = opcode_starts(t);
            assert(t.take(0) =~= Seq::<TokenView>::empty());
            assert(byte_count(t.take(0)) == 0);
            lemma_line_starts_are_targets(t, p.labels, 0, Seq::empty(), 0);
            assert(t.take(t.len() as int) =~= t);
            lemma_labels_name_instructions(input, tab);
            assert forall|c: int| #[trigger] starts.contains(c) implies instruction_at(b, starts, c) by {
                let m = choose|m: int| 0 <= m < t.len() && (#[trigger] t[m]).kind is Opcode && c == byte_count(t.take(m));
                lemma_opcodes_load_instructions(t, p.labels, 0, Seq::empty(), m);
            }
        }
    }
}

} // verus!
