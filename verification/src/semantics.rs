use vstd::prelude::*;
use vstd::arithmetic::power2::{lemma2_to64, pow2};
use crate::interpreter::{InputTarget, MachineState, RuntimeError, StepFault, StepOutcome, REGISTER_COUNT, alu};
use crate::runtime_opcode::{RuntimeOpcode, lemma_code_roundtrip};

verus! {

// ---------------------------------------------------------------------------
// What each instruction means, in terms of numbers and bits.

/// Bit `i` of `x` (bit 0 is the least significant).
pub open spec fn bit(x: u8, i: u8) -> bool {
    (x >> i) & 1u8 == 1u8
}

/// `ADD` adds modulo 256 and `SUB` subtracts modulo 256.
pub proof fn lemma_add_sub_arithmetic(a: u8, b: u8)
    ensures
        alu(RuntimeOpcode::AddRegister, a, b) as int == (a + b) % 256,
        alu(RuntimeOpcode::AddLiteral, a, b) as int == (a + b) % 256,
        alu(RuntimeOpcode::SubRegister, a, b) as int == (a - b + 256) % 256,
        alu(RuntimeOpcode::SubLiteral, a, b) as int == (a - b + 256) % 256,
{
}

/// `AND`, `ORR` and `EOR` work bit by bit: a bit of the result is set when it
/// is set in both operands, in either, or in exactly one of them.
pub proof fn lemma_bitwise_logic(a: u8, b: u8, i: u8)
    requires
        i < 8,
    ensures
        bit(alu(RuntimeOpcode::AndRegister, a, b), i) == (bit(a, i) && bit(b, i)),
        bit(alu(RuntimeOpcode::AndLiteral, a, b), i) == (bit(a, i) && bit(b, i)),
        bit(alu(RuntimeOpcode::OrrRegister, a, b), i) == (bit(a, i) || bit(b, i)),
        bit(alu(RuntimeOpcode::OrrLiteral, a, b), i) == (bit(a, i) || bit(b, i)),
        bit(alu(RuntimeOpcode::EorRegister, a, b), i) == (bit(a, i) != bit(b, i)),
        bit(alu(RuntimeOpcode::EorLiteral, a, b), i) == (bit(a, i) != bit(b, i)),
{
    assert((((a & b) >> i) & 1u8 == 1u8) == (((a >> i) & 1u8 == 1u8) && ((b >> i) & 1u8 == 1u8))) by (bit_vector)
        requires
            i < 8,
    ;
    assert((((a | b) >> i) & 1u8 == 1u8) == (((a >> i) & 1u8 == 1u8) || ((b >> i) & 1u8 == 1u8))) by (bit_vector)
        requires
            i < 8,
    ;
    assert((((a ^ b) >> i) & 1u8 == 1u8) == (((a >> i) & 1u8 == 1u8) != ((b >> i) & 1u8 == 1u8))) by (bit_vector)
        requires
            i < 8,
    ;
}

/// Bitwise NOT, as `MVN` applies it: every bit flips, so `!x` is `255 - x`.
pub proof fn lemma_bitwise_not(x: u8, i: u8)
    requires
        i < 8,
    ensures
        bit(!x, i) == !bit(x, i),
        (!x) as int == 255 - x,
{
    assert((((!x) >> i) & 1u8 == 1u8) == !((x >> i) & 1u8 == 1u8)) by (bit_vector)
        requires
            i < 8,
    ;
    assert((!x) as int == 255 - x) by (bit_vector);
}

/// `LSL` by `b` multiplies by 2 to the `b` modulo 256 and `LSR` by `b`
/// divides by 2 to the `b`, rounding down; a shift by 8 or more bits gives 0.
pub proof fn lemma_shifts(a: u8, b: u8)
    ensures
        b < 8 ==> alu(RuntimeOpcode::LslRegister, a, b) as int == (a * pow2(b as nat)) % 256,
        b < 8 ==> alu(RuntimeOpcode::LslLiteral, a, b) as int == (a * pow2(b as nat)) % 256,
        b < 8 ==> alu(RuntimeOpcode::LsrRegister, a, b) as int == (a as int) / (pow2(b as nat) as int),
        b < 8 ==> alu(RuntimeOpcode::LsrLiteral, a, b) as int == (a as int) / (pow2(b as nat) as int),
        b >= 8 ==> alu(RuntimeOpcode::LslRegister, a, b) == 0 && alu(RuntimeOpcode::LslLiteral, a, b) == 0,
        b >= 8 ==> alu(RuntimeOpcode::LsrRegister, a, b) == 0 && alu(RuntimeOpcode::LsrLiteral, a, b) == 0,
{
    lemma2_to64();
    if b == 0 {
        assert(a << 0u8 == a) by (bit_vector);
        assert(a >> 0u8 == a) by (bit_vector);
    } else if b == 1 {
        assert((a << 1u8) as int == (a as int * 2) % 256) by (bit_vector);
        assert((a >> 1u8) as int == a as int / 2) by (bit_vector);
    } else if b == 2 {
        assert((a << 2u8) as int == (a as int * 4) % 256) by (bit_vector);
        assert((a >> 2u8) as int == a as int / 4) by (bit_vector);
    } else if b == 3 {
        assert((a << 3u8) as int == (a as int * 8) % 256) by (bit_vector);
        assert((a >> 3u8) as int == a as int / 8) by (bit_vector);
    } else if b == 4 {
        assert((a << 4u8) as int == (a as int * 16) % 256) by (bit_vector);
        assert((a >> 4u8) as int == a as int / 16) by (bit_vector);
    } else if b == 5 {
        assert((a << 5u8) as int == (a as int * 32) % 256) by (bit_vector);
        assert((a >> 5u8) as int == a as int / 32) by (bit_vector);
    } else if b == 6 {
        assert((a << 6u8) as int == (a as int * 64) % 256) by (bit_vector);
        assert((a >> 6u8) as int == a as int / 64) by (bit_vector);
    } else if b == 7 {
        assert((a << 7u8) as int == (a as int * 128) % 256) by (bit_vector);
        assert((a >> 7u8) as int == a as int / 128) by (bit_vector);
    }
}

// ---------------------------------------------------------------------------
// What one step does to the machine.

/// Operand byte `k` of the instruction at the program counter.
pub open spec fn operand(s: MachineState, k: int) -> u8 {
    s.memory[s.program_counter + 1 + k]
}

/// The instruction at the program counter has the opcode byte of `op` and `n`
/// operand bytes, all inside the program.
pub open spec fn at_instruction(s: MachineState, op: RuntimeOpcode, n: int) -> bool {
    &&& s.wf()
    &&& s.program_counter + 1 + n <= s.program_bytes
    &&& s.memory[s.program_counter as int] == op.spec_code()
}

/// The machine with its program counter moved past an instruction with `n`
/// operand bytes, and nothing else changed.
pub open spec fn advanced(s: MachineState, n: int) -> MachineState {
    MachineState { program_counter: (s.program_counter + 1 + n) as u8, ..s }
}

/// The machine after an instruction with `n` operand bytes that sets register
/// `r` to `v` and changes nothing else.
pub open spec fn with_register(s: MachineState, n: int, r: u8, v: u8) -> MachineState {
    MachineState { registers: s.registers.update(r as int, v), ..advanced(s, n) }
}

pub open spec fn continues(s: MachineState, next: MachineState) -> bool {
    s.step() == Ok::<(MachineState, StepOutcome), StepFault>((next, StepOutcome::Continue))
}

/// Arithmetic, logic and shifts: `op Rd, Rn, Rm` sets `Rd` to `op` applied to
/// the values of `Rn` and `Rm`, and `op Rd, Rn, #n` to `op` applied to the
/// value of `Rn` and `n`; nothing else changes but the program counter, which
/// moves to the next instruction.
pub proof fn lemma_step_arithmetic(s: MachineState, op: RuntimeOpcode)
    requires
        operand(s, 0) < REGISTER_COUNT,
        operand(s, 1) < REGISTER_COUNT,
    ensures
        (op == RuntimeOpcode::AddRegister || op == RuntimeOpcode::SubRegister || op == RuntimeOpcode::AndRegister
            || op == RuntimeOpcode::OrrRegister || op == RuntimeOpcode::EorRegister || op == RuntimeOpcode::LslRegister
            || op == RuntimeOpcode::LsrRegister) && at_instruction(s, op, 3) && operand(s, 2) < REGISTER_COUNT
            ==> continues(
            s,
            with_register(
                s,
                3,
                operand(s, 0),
                alu(op, s.registers[operand(s, 1) as int], s.registers[operand(s, 2) as int]),
            ),
        ),
        (op == RuntimeOpcode::AddLiteral || op == RuntimeOpcode::SubLiteral || op == RuntimeOpcode::AndLiteral
            || op == RuntimeOpcode::OrrLiteral || op == RuntimeOpcode::EorLiteral || op == RuntimeOpcode::LslLiteral
            || op == RuntimeOpcode::LsrLiteral) && at_instruction(s, op, 3) ==> continues(
            s,
            with_register(s, 3, operand(s, 0), alu(op, s.registers[operand(s, 1) as int], operand(s, 2))),
        ),
{
    lemma_code_roundtrip(op);
}

/// `MOV Rd, Rn` copies the value of `Rn` into `Rd`, `MVN Rd, Rn` stores its
/// bitwise NOT; `MOV Rd, #n` stores `n` and `MVN Rd, #n` its bitwise NOT.
/// Nothing else changes but the program counter.
pub proof fn lemma_step_move(s: MachineState)
    requires
        operand(s, 0) < REGISTER_COUNT,
    ensures
        at_instruction(s, RuntimeOpcode::MovRegister, 2) && operand(s, 1) < REGISTER_COUNT ==> continues(
            s,
            with_register(s, 2, operand(s, 0), s.registers[operand(s, 1) as int]),
        ),
        at_instruction(s, RuntimeOpcode::MvnRegister, 2) && operand(s, 1) < REGISTER_COUNT ==> continues(
            s,
            with_register(s, 2, operand(s, 0), !s.registers[operand(s, 1) as int]),
        ),
        at_instruction(s, RuntimeOpcode::MovLiteral, 2) ==> continues(s, with_register(s, 2, operand(s, 0), operand(s, 1))),
        at_instruction(s, RuntimeOpcode::MvnLiteral, 2) ==> continues(s, with_register(s, 2, operand(s, 0), !operand(s, 1))),
{
    lemma_code_roundtrip(RuntimeOpcode::MovRegister);
    lemma_code_roundtrip(RuntimeOpcode::MvnRegister);
    lemma_code_roundtrip(RuntimeOpcode::MovLiteral);
    lemma_code_roundtrip(RuntimeOpcode::MvnLiteral);
}

/// `CMP Rn, Rm` and `CMP Rn, #n` compare the value `a` of `Rn` with `b`: the
/// comparison result becomes `a - b` modulo 256 and the underflow flag says
/// whether `b > a`. Registers and memory stay as they were.
pub proof fn lemma_step_compare(s: MachineState)
    requires
        operand(s, 0) < REGISTER_COUNT,
    ensures
        at_instruction(s, RuntimeOpcode::CmpRegister, 2) && operand(s, 1) < REGISTER_COUNT ==> ({
            let a = s.registers[operand(s, 0) as int];
            let b = s.registers[operand(s, 1) as int];
            s.step() matches Ok((t, StepOutcome::Continue)) && t.registers == s.registers && t.memory == s.memory
                && t.program_counter == s.program_counter + 3 && t.program_bytes == s.program_bytes
                && t.comparison_result as int == (a - b + 256) % 256 && t.underflow == (b > a)
        }),
        at_instruction(s, RuntimeOpcode::CmpLiteral, 2) ==> ({
            let a = s.registers[operand(s, 0) as int];
            let b = operand(s, 1);
            s.step() matches Ok((t, StepOutcome::Continue)) && t.registers == s.registers && t.memory == s.memory
                && t.program_counter == s.program_counter + 3 && t.program_bytes == s.program_bytes
                && t.comparison_result as int == (a - b + 256) % 256 && t.underflow == (b > a)
        }),
{
    lemma_code_roundtrip(RuntimeOpcode::CmpRegister);
    lemma_code_roundtrip(RuntimeOpcode::CmpLiteral);
}

/// The machine with its program counter at `target` and nothing else changed.
pub open spec fn jumped(s: MachineState, target: u8) -> MachineState {
    MachineState { program_counter: target, ..s }
}

/// `B` always jumps to its operand; `BEQ`, `BNE`, `BGT` and `BLT` jump when
/// the last comparison found equal values, unequal values, a greater or a
/// smaller first value, and otherwise go on with the next instruction.
/// Nothing else changes.
pub proof fn lemma_step_branch(s: MachineState)
    ensures
        at_instruction(s, RuntimeOpcode::B, 1) ==> continues(s, jumped(s, operand(s, 0))),
        at_instruction(s, RuntimeOpcode::Beq, 1) ==> continues(
            s,
            if s.comparison_result == 0 {
                jumped(s, operand(s, 0))
            } else {
                advanced(s, 1)
            },
        ),
        at_instruction(s, RuntimeOpcode::Bne, 1) ==> continues(
            s,
            if s.comparison_result != 0 {
                jumped(s, operand(s, 0))
            } else {
                advanced(s, 1)
            },
        ),
        at_instruction(s, RuntimeOpcode::Bgt, 1) ==> continues(
            s,
            if s.comparison_result != 0 && !s.underflow {
                jumped(s, operand(s, 0))
            } else {
                advanced(s, 1)
            },
        ),
        at_instruction(s, RuntimeOpcode::Blt, 1) ==> continues(
            s,
            if s.underflow {
                jumped(s, operand(s, 0))
            } else {
                advanced(s, 1)
            },
        ),
{
    lemma_code_roundtrip(RuntimeOpcode::B);
    lemma_code_roundtrip(RuntimeOpcode::Beq);
    lemma_code_roundtrip(RuntimeOpcode::Bne);
    lemma_code_roundtrip(RuntimeOpcode::Bgt);
    lemma_code_roundtrip(RuntimeOpcode::Blt);
}

/// `LDR Rd, m` loads the data byte at offset `m` (memory location
/// `program_bytes + m`) into `Rd`; `STR Rd, m` stores the value of `Rd`
/// there. An offset past the end of memory is an error.
pub proof fn lemma_step_memory(s: MachineState)
    requires
        operand(s, 0) < REGISTER_COUNT,
    ensures
        at_instruction(s, RuntimeOpcode::Ldr, 2) ==> if s.program_bytes + operand(s, 1) <= 255 {
            continues(s, with_register(s, 2, operand(s, 0), s.memory[s.program_bytes + operand(s, 1)]))
        } else {
            s.step() == Err::<(MachineState, StepOutcome), StepFault>(
                StepFault::Error(RuntimeError::OutOfBoundsRead(operand(s, 1) as usize)),
            )
        },
        at_instruction(s, RuntimeOpcode::Str, 2) ==> if s.program_bytes + operand(s, 1) <= 255 {
            continues(
                s,
                MachineState {
                    memory: s.memory.update(s.program_bytes + operand(s, 1), s.registers[operand(s, 0) as int]),
                    ..advanced(s, 2)
                },
            )
        } else {
            s.step() == Err::<(MachineState, StepOutcome), StepFault>(
                StepFault::Error(RuntimeError::OutOfBoundsWrite(operand(s, 1) as usize)),
            )
        },
{
    lemma_code_roundtrip(RuntimeOpcode::Ldr);
    lemma_code_roundtrip(RuntimeOpcode::Str);
}

/// `PRINT` asks for the value of a register or a data byte to be written out,
/// `INPUT` for a value to be read into one; neither changes anything else.
/// `NOP` only moves on, and `HALT` ends the program.
pub proof fn lemma_step_other(s: MachineState)
    ensures
        at_instruction(s, RuntimeOpcode::PrintRegister, 1) && operand(s, 0) < REGISTER_COUNT ==> s.step() == Ok::<
            (MachineState, StepOutcome),
            StepFault,
        >((advanced(s, 1), StepOutcome::Print(s.registers[operand(s, 0) as int]))),
        at_instruction(s, RuntimeOpcode::PrintMemory, 1) && s.program_bytes + operand(s, 0) <= 255 ==> s.step()
            == Ok::<(MachineState, StepOutcome), StepFault>(
            (advanced(s, 1), StepOutcome::Print(s.memory[s.program_bytes + operand(s, 0)])),
        ),
        at_instruction(s, RuntimeOpcode::InputRegister, 1) ==> s.step() == Ok::<(MachineState, StepOutcome), StepFault>(
            (advanced(s, 1), StepOutcome::Input(InputTarget::Register(operand(s, 0)))),
        ),
        at_instruction(s, RuntimeOpcode::InputMemory, 1) ==> s.step() == Ok::<(MachineState, StepOutcome), StepFault>(
            (advanced(s, 1), StepOutcome::Input(InputTarget::Memory(operand(s, 0)))),
        ),
        at_instruction(s, RuntimeOpcode::Nop, 0) ==> continues(s, advanced(s, 0)),
        at_instruction(s, RuntimeOpcode::Halt, 0) ==> s.step() == Ok::<(MachineState, StepOutcome), StepFault>(
            (advanced(s, 0), StepOutcome::Halt),
        ),
{
    lemma_code_roundtrip(RuntimeOpcode::PrintRegister);
    lemma_code_roundtrip(RuntimeOpcode::PrintMemory);
    lemma_code_roundtrip(RuntimeOpcode::InputRegister);
    lemma_code_roundtrip(RuntimeOpcode::InputMemory);
    lemma_code_roundtrip(RuntimeOpcode::Nop);
    lemma_code_roundtrip(RuntimeOpcode::Halt);
}

} // verus!
