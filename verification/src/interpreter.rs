use vstd::prelude::*;
use vstd::wrapping::u8_specs;
use crate::runtime_opcode::RuntimeOpcode;
use crate::style::{close_error_message, open_error_message, styled};
use crate::text::{decimal, push_decimal};

verus! {

/// Number of general purpose registers, `R0` to `R12`.
pub const REGISTER_COUNT: u8 = 13;

/// Errors that stop a running program.
#[derive(Debug, Clone, Copy, PartialEq, Eq, Structural)]
pub enum RuntimeError {
    /// The program counter reached the end of the program (no `HALT`).
    ReadPastMemory,
    /// A data memory offset that lies past the end of memory was read.
    OutOfBoundsRead(usize),
    /// A data memory offset that lies past the end of memory was written.
    OutOfBoundsWrite(usize),
}

impl RuntimeError {
    /// The text of the error message.
    pub open spec fn spec_message(self) -> Seq<char> {
        match self {
            RuntimeError::ReadPastMemory => "Runtime Error :: Program read past of available memory (perhaps you forgot the 'HALT' instruction?)"@,
            RuntimeError::OutOfBoundsRead(idx) => "Runtime Error :: Attempt to read out of bounds memory location "@ + decimal(
                idx as nat,
            ),
            RuntimeError::OutOfBoundsWrite(idx) => "Runtime Error :: Attempt to write to out of bounds memory location "@
                + decimal(idx as nat),
        }
    }

    /// The error message as it is shown: red and bold.
    pub fn to_display_string(&self) -> (res: String)
        ensures
            res@ == styled(self.spec_message()),
    {
        let mut s = open_error_message();
        match self {
            RuntimeError::ReadPastMemory => {
                s.append("Runtime Error :: Program read past of available memory (perhaps you forgot the 'HALT' instruction?)");
            },
            RuntimeError::OutOfBoundsRead(idx) => {
                s.append("Runtime Error :: Attempt to read out of bounds memory location ");
                push_decimal(&mut s, *idx);
            },
            RuntimeError::OutOfBoundsWrite(idx) => {
                s.append("Runtime Error :: Attempt to write to out of bounds memory location ");
                push_decimal(&mut s, *idx);
            },
        }
        close_error_message(&mut s);
        assert(s@ =~= styled(self.spec_message()));
        s
    }
}

/// How a step can go wrong: an error of the program, or a situation in which
/// the interpreter aborts (an undefined opcode byte, a register number of 13
/// or more, or a skipped branch operand at the very end of memory).
#[derive(Debug, Clone, Copy, PartialEq, Eq, Structural)]
pub enum StepFault {
    Error(RuntimeError),
    Abort,
}

/// Where a value that the program asks for is to be stored.
#[derive(Debug, Clone, Copy, PartialEq, Eq, Structural)]
pub enum InputTarget {
    Register(u8),
    Memory(u8),
}

/// What an executed instruction asks of its surroundings.
#[derive(Debug, Clone, Copy, PartialEq, Eq, Structural)]
pub enum StepOutcome {
    /// Nothing: go on with the next instruction.
    Continue,
    /// `HALT`: the program is finished.
    Halt,
    /// `PRINT`: this value is to be written out, on a line of its own.
    Print(u8),
    /// `INPUT`: a value is to be read and handed to `provide_input`.
    Input(InputTarget),
}

/// The machine state: 256 bytes of memory holding the program followed by
/// its data, 13 registers, and the flags set by `CMP`.
#[derive(Debug, Clone, Copy)]
pub struct Interpreter {
    pub memory: [u8; 256],
    pub registers: [u8; 13],
    pub program_bytes: u8,
    pub program_counter: u8,
    pub comparison_result: u8,
    pub underflow: bool,
}

/// The mathematical value of an interpreter state.
pub struct MachineState {
    pub memory: Seq<u8>,
    pub registers: Seq<u8>,
    pub program_bytes: u8,
    pub program_counter: u8,
    pub comparison_result: u8,
    pub underflow: bool,
}

impl View for Interpreter {
    type V = MachineState;

    open spec fn view(&self) -> MachineState {
        MachineState {
            memory: self.memory@,
            registers: self.registers@,
            program_bytes: self.program_bytes,
            program_counter: self.program_counter,
            comparison_result: self.comparison_result,
            underflow: self.underflow,
        }
    }
}

/// The value an arithmetic or logic instruction computes from its operands.
/// Arithmetic wraps around at 256; a shift by 8 or more bits moves every bit
/// out and gives 0.
pub open spec fn alu(op: RuntimeOpcode, a: u8, b: u8) -> u8 {
    match op {
        RuntimeOpcode::AddRegister | RuntimeOpcode::AddLiteral => u8_specs::wrapping_add(a, b),
        RuntimeOpcode::SubRegister | RuntimeOpcode::SubLiteral => u8_specs::wrapping_sub(a, b),
        RuntimeOpcode::AndRegister | RuntimeOpcode::AndLiteral => a & b,
        RuntimeOpcode::OrrRegister | RuntimeOpcode::OrrLiteral => a | b,
        RuntimeOpcode::EorRegister | RuntimeOpcode::EorLiteral => a ^ b,
        RuntimeOpcode::LslRegister | RuntimeOpcode::LslLiteral => if b >= 8 {
            0
        } else {
            a << b
        },
        RuntimeOpcode::LsrRegister | RuntimeOpcode::LsrLiteral => if b >= 8 {
            0
        } else {
            a >> b
        },
        _ => 0,
    }
}

/// The step result type of the specification.
pub type Transition = Result<(MachineState, StepOutcome), StepFault>;

impl MachineState {
    /// A well formed state: 256 bytes of memory and 13 registers.
    pub open spec fn wf(self) -> bool {
        self.memory.len() == 256 && self.registers.len() == 13
    }

    /// Reads the byte at the program counter and moves past it; reading at or
    /// past the end of the program is an error.
    pub open spec fn fetch(self) -> Result<(MachineState, u8), StepFault> {
        if self.program_counter >= self.program_bytes {
            Err(StepFault::Error(RuntimeError::ReadPastMemory))
        } else {
            Ok((
                MachineState { program_counter: (self.program_counter + 1) as u8, ..self },
                self.memory[self.program_counter as int],
            ))
        }
    }

    /// The value of register `r`; there are only 13.
    pub open spec fn reg(self, r: u8) -> Result<u8, StepFault> {
        if r >= REGISTER_COUNT {
            Err(StepFault::Abort)
        } else {
            Ok(self.registers[r as int])
        }
    }

    pub open spec fn set_reg(self, r: u8, v: u8) -> Result<MachineState, StepFault> {
        if r >= REGISTER_COUNT {
            Err(StepFault::Abort)
        } else {
            Ok(MachineState { registers: self.registers.update(r as int, v), ..self })
        }
    }

    /// Data memory begins right after the program: offset `idx` is memory
    /// location `program_bytes + idx`, which must lie below 256.
    pub open spec fn read_data(self, idx: u8) -> Result<u8, StepFault> {
        if self.program_bytes + idx > 255 {
            Err(StepFault::Error(RuntimeError::OutOfBoundsRead(idx as usize)))
        } else {
            Ok(self.memory[self.program_bytes + idx])
        }
    }

    pub open spec fn write_data(self, idx: u8, v: u8) -> Result<MachineState, StepFault> {
        if self.program_bytes + idx > 255 {
            Err(StepFault::Error(RuntimeError::OutOfBoundsWrite(idx as usize)))
        } else {
            Ok(MachineState { memory: self.memory.update(self.program_bytes + idx, v), ..self })
        }
    }

    /// `op Rd, Rn, Rm`: `Rd := alu(Rn, Rm)`.
    pub open spec fn exec_alu_register(self, op: RuntimeOpcode) -> Transition {
        match self.fetch() {
            Err(e) => Err(e),
            Ok((s1, rd)) => match s1.fetch() {
                Err(e) => Err(e),
                Ok((s2, rn)) => match s2.reg(rn) {
                    Err(e) => Err(e),
                    Ok(a) => match s2.fetch() {
                        Err(e) => Err(e),
                        Ok((s3, rm)) => match s3.reg(rm) {
                            Err(e) => Err(e),
                            Ok(b) => match s3.set_reg(rd, alu(op, a, b)) {
                                Err(e) => Err(e),
                                Ok(s4) => Ok((s4, StepOutcome::Continue)),
                            },
                        },
                    },
                },
            },
        }
    }

    /// `op Rd, Rn, #lit`: `Rd := alu(Rn, lit)`.
    pub open spec fn exec_alu_literal(self, op: RuntimeOpcode) -> Transition {
        match self.fetch() {
            Err(e) => Err(e),
            Ok((s1, rd)) => match s1.fetch() {
                Err(e) => Err(e),
                Ok((s2, rn)) => match s2.reg(rn) {
                    Err(e) => Err(e),
                    Ok(a) => match s2.fetch() {
                        Err(e) => Err(e),
                        Ok((s3, lit)) => match s3.set_reg(rd, alu(op, a, lit)) {
                            Err(e) => Err(e),
                            Ok(s4) => Ok((s4, StepOutcome::Continue)),
                        },
                    },
                },
            },
        }
    }

    /// `MOV`/`MVN` with a register operand: `Rd := Rn` or `Rd := !Rn`.
    pub open spec fn exec_move_register(self, invert: bool) -> Transition {
        match self.fetch() {
            Err(e) => Err(e),
            Ok((s1, rd)) => match s1.fetch() {
                Err(e) => Err(e),
                Ok((s2, rn)) => match s2.reg(rn) {
                    Err(e) => Err(e),
                    Ok(a) => match s2.set_reg(rd, if invert { !a } else { a }) {
                        Err(e) => Err(e),
                        Ok(s3) => Ok((s3, StepOutcome::Continue)),
                    },
                },
            },
        }
    }

    /// `MOV`/`MVN` with a literal operand: `Rd := lit` or `Rd := !lit`.
    pub open spec fn exec_move_literal(self, invert: bool) -> Transition {
        match self.fetch() {
            Err(e) => Err(e),
            Ok((s1, rd)) => match s1.fetch() {
                Err(e) => Err(e),
                Ok((s2, lit)) => match s2.set_reg(rd, if invert { !lit } else { lit }) {
                    Err(e) => Err(e),
                    Ok(s3) => Ok((s3, StepOutcome::Continue)),
                },
            },
        }
    }

    /// Sets the flags for comparing `a` with `b`.
    pub open spec fn compare(self, a: u8, b: u8) -> MachineState {
        MachineState { underflow: b > a, comparison_result: u8_specs::wrapping_sub(a, b), ..self }
    }

    pub open spec fn exec_cmp_register(self) -> Transition {
        match self.fetch() {
            Err(e) => Err(e),
            Ok((s1, rn)) => match s1.fetch() {
                Err(e) => Err(e),
                Ok((s2, rm)) => match s2.reg(rm) {
                    Err(e) => Err(e),
                    Ok(b) => match s2.reg(rn) {
                        Err(e) => Err(e),
                        Ok(a) => Ok((s2.compare(a, b), StepOutcome::Continue)),
                    },
                },
            },
        }
    }

    pub open spec fn exec_cmp_literal(self) -> Transition {
        match self.fetch() {
            Err(e) => Err(e),
            Ok((s1, rn)) => match s1.fetch() {
                Err(e) => Err(e),
                Ok((s2, lit)) => match s2.reg(rn) {
                    Err(e) => Err(e),
                    Ok(a) => Ok((s2.compare(a, lit), StepOutcome::Continue)),
                },
            },
        }
    }

    /// A branch: when `taken`, jump to the target byte; otherwise skip it.
    pub open spec fn exec_branch(self, taken: bool) -> Transition {
        if taken {
            match self.fetch() {
                Err(e) => Err(e),
                Ok((s1, target)) => Ok((MachineState { program_counter: target, ..s1 }, StepOutcome::Continue)),
            }
        } else if self.program_counter == 255 {
            Err(StepFault::Abort)
        } else {
            Ok((
                MachineState { program_counter: (self.program_counter + 1) as u8, ..self },
                StepOutcome::Continue,
            ))
        }
    }

    /// Executes `op`, whose opcode byte has just been read.
    pub open spec fn execute(self, op: RuntimeOpcode) -> Transition {
        match op {
            RuntimeOpcode::Nop => Ok((self, StepOutcome::Continue)),
            RuntimeOpcode::Halt => Ok((self, StepOutcome::Halt)),
            RuntimeOpcode::Ldr => match self.fetch() {
                Err(e) => Err(e),
                Ok((s1, rd)) => match s1.fetch() {
                    Err(e) => Err(e),
                    Ok((s2, idx)) => match s2.read_data(idx) {
                        Err(e) => Err(e),
                        Ok(v) => match s2.set_reg(rd, v) {
                            Err(e) => Err(e),
                            Ok(s3) => Ok((s3, StepOutcome::Continue)),
                        },
                    },
                },
            },
            RuntimeOpcode::Str => match self.fetch() {
                Err(e) => Err(e),
                Ok((s1, rs)) => match s1.fetch() {
                    Err(e) => Err(e),
                    Ok((s2, idx)) => match s2.reg(rs) {
                        Err(e) => Err(e),
                        Ok(v) => match s2.write_data(idx, v) {
                            Err(e) => Err(e),
                            Ok(s3) => Ok((s3, StepOutcome::Continue)),
                        },
                    },
                },
            },
            RuntimeOpcode::AddRegister | RuntimeOpcode::SubRegister | RuntimeOpcode::AndRegister
            | RuntimeOpcode::OrrRegister | RuntimeOpcode::EorRegister | RuntimeOpcode::LslRegister
            | RuntimeOpcode::LsrRegister => self.exec_alu_register(op),
            RuntimeOpcode::AddLiteral | RuntimeOpcode::SubLiteral | RuntimeOpcode::AndLiteral
            | RuntimeOpcode::OrrLiteral | RuntimeOpcode::EorLiteral | RuntimeOpcode::LslLiteral
            | RuntimeOpcode::LsrLiteral => self.exec_alu_literal(op),
            RuntimeOpcode::MovRegister => self.exec_move_register(false),
            RuntimeOpcode::MvnRegister => self.exec_move_register(true),
            RuntimeOpcode::MovLiteral => self.exec_move_literal(false),
            RuntimeOpcode::MvnLiteral => self.exec_move_literal(true),
            RuntimeOpcode::CmpRegister => self.exec_cmp_register(),
            RuntimeOpcode::CmpLiteral => self.exec_cmp_literal(),
            RuntimeOpcode::B => self.exec_branch(true),
            RuntimeOpcode::Beq => self.exec_branch(self.comparison_result == 0),
            RuntimeOpcode::Bne => self.exec_branch(self.comparison_result != 0),
            RuntimeOpcode::Bgt => self.exec_branch(self.comparison_result != 0 && !self.underflow),
            RuntimeOpcode::Blt => self.exec_branch(self.underflow),
            RuntimeOpcode::PrintRegister => match self.fetch() {
                Err(e) => Err(e),
                Ok((s1, r)) => match s1.reg(r) {
                    Err(e) => Err(e),
                    Ok(v) => Ok((s1, StepOutcome::Print(v))),
                },
            },
            RuntimeOpcode::PrintMemory => match self.fetch() {
                Err(e) => Err(e),
                Ok((s1, idx)) => match s1.read_data(idx) {
                    Err(e) => Err(e),
                    Ok(v) => Ok((s1, StepOutcome::Print(v))),
                },
            },
            RuntimeOpcode::InputRegister => match self.fetch() {
                Err(e) => Err(e),
                Ok((s1, r)) => Ok((s1, StepOutcome::Input(InputTarget::Register(r)))),
            },
            RuntimeOpcode::InputMemory => match self.fetch() {
                Err(e) => Err(e),
                Ok((s1, idx)) => Ok((s1, StepOutcome::Input(InputTarget::Memory(idx)))),
            },
        }
    }

    /// One instruction: read the opcode byte, decode it (an undefined byte
    /// aborts), and execute it.
    pub open spec fn step(self) -> Transition {
        match self.fetch() {
            Err(e) => Err(e),
            Ok((s1, byte)) => match RuntimeOpcode::spec_from_code(byte) {
                None => Err(StepFault::Abort),
                Some(op) => s1.execute(op),
            },
        }
    }

    /// Stores a value that was asked for by `INPUT`.
    pub open spec fn store_input(self, target: InputTarget, value: u8) -> Result<MachineState, StepFault> {
        match target {
            InputTarget::Register(r) => self.set_reg(r, value),
            InputTarget::Memory(idx) => self.write_data(idx, value),
        }
    }
}

/// `s2` holds the same program as `s`: same size, same bytes.
pub open spec fn keeps_program(s: MachineState, s2: MachineState) -> bool {
    &&& s2.wf()
    &&& s2.program_bytes == s.program_bytes
    &&& forall|k: int| 0 <= k < s.program_bytes ==> #[trigger] s2.memory[k] == s.memory[k]
}

/// Running a program never changes the program: no instruction, and no value
/// stored for `INPUT`, writes to the bytes that the program occupies.
pub proof fn lemma_program_unchanged(s: MachineState, target: InputTarget, value: u8)
    requires
        s.wf(),
    ensures
        s.step() matches Ok((s2, out)) ==> keeps_program(s, s2),
        s.store_input(target, value) matches Ok(s2) ==> keeps_program(s, s2),
{
}

/// Data memory starts right after the program: a program of `n` bytes has the
/// offsets `0` to `255 - n`. What is written at an offset is read back from
/// it, and no other offset, register or program byte changes. Likewise a
/// register reads back what was written to it.
pub proof fn lemma_data_memory(s: MachineState, idx: u8, other: u8, v: u8, r: u8, r2: u8)
    requires
        s.wf(),
    ensures
        s.read_data(idx) is Ok <==> idx < 256 - s.program_bytes,
        s.write_data(idx, v) is Ok <==> idx < 256 - s.program_bytes,
        s.write_data(idx, v) matches Ok(s2) ==> {
            &&& s2.read_data(idx) == Ok::<u8, StepFault>(v)
            &&& (other != idx ==> s2.read_data(other) == s.read_data(other))
            &&& s2.registers == s.registers
            &&& keeps_program(s, s2)
        },
        s.set_reg(r, v) is Ok <==> r < REGISTER_COUNT,
        s.set_reg(r, v) matches Ok(s2) ==> {
            &&& s2.reg(r) == Ok::<u8, StepFault>(v)
            &&& (r2 != r ==> s2.reg(r2) == s.reg(r2))
            &&& s2.memory == s.memory
        },
{
}

/// After `CMP` of `a` with `b`, `BEQ` branches exactly when `a == b`, `BNE`
/// when `a != b`, `BGT` when `a > b` and `BLT` when `a < b`.
pub proof fn lemma_conditional_branches(s: MachineState, a: u8, b: u8)
    ensures
        s.compare(a, b).execute(RuntimeOpcode::Beq) == s.compare(a, b).exec_branch(a == b),
        s.compare(a, b).execute(RuntimeOpcode::Bne) == s.compare(a, b).exec_branch(a != b),
        s.compare(a, b).execute(RuntimeOpcode::Bgt) == s.compare(a, b).exec_branch(a > b),
        s.compare(a, b).execute(RuntimeOpcode::Blt) == s.compare(a, b).exec_branch(a < b),
{
}

/// `HALT` ends the program and changes nothing but the program counter;
/// reaching the end of the program without it is an error.
pub proof fn lemma_halt(s: MachineState)
    requires
        s.wf(),
    ensures
        s.program_counter >= s.program_bytes ==> s.step() == Err::<(MachineState, StepOutcome), StepFault>(
            StepFault::Error(RuntimeError::ReadPastMemory),
        ),
        s.program_counter < s.program_bytes && s.memory[s.program_counter as int] == RuntimeOpcode::Halt.spec_code()
            ==> s.step() == Ok::<(MachineState, StepOutcome), StepFault>(
            (MachineState { program_counter: (s.program_counter + 1) as u8, ..s }, StepOutcome::Halt),
        ),
{
    crate::runtime_opcode::lemma_code_roundtrip(RuntimeOpcode::Halt);
}

impl Interpreter {
    /// A machine about to run the `program_bytes` bytes of program at the
    /// start of `memory`.
    pub fn new(memory: [u8; 256], registers: [u8; 13], program_bytes: u8) -> (res: Self)
        ensures
            res.memory == memory,
            res.registers == registers,
            res.program_bytes == program_bytes,
            res.program_counter == 0,
            res.comparison_result == 0,
            !res.underflow,
    {
        Interpreter {
            memory,
            registers,
            program_bytes,
            program_counter: 0,
            comparison_result: 0,
            underflow: false,
        }
    }

    fn read_next_memory_address(&mut self) -> (res: Result<u8, StepFault>)
        ensures
            match old(self)@.fetch() {
                Ok((s, b)) => res == Ok::<u8, StepFault>(b) && final(self)@ == s,
                Err(e) => res == Err::<u8, StepFault>(e) && final(self)@ == old(self)@,
            },
    {
        if self.program_counter >= self.program_bytes {
            return Err(StepFault::Error(RuntimeError::ReadPastMemory));
        }
        let result = self.memory[self.program_counter as usize];
        self.program_counter = self.program_counter + 1;
        Ok(result)
    }

    fn register(&self, r: u8) -> (res: Result<u8, StepFault>)
        ensures
            res == self@.reg(r),
    {
        if r >= REGISTER_COUNT {
            return Err(StepFault::Abort);
        }
        Ok(self.registers[r as usize])
    }

    fn set_register(&mut self, r: u8, v: u8) -> (res: Result<(), StepFault>)
        ensures
            match old(self)@.set_reg(r, v) {
                Ok(s) => res == Ok::<(), StepFault>(()) && final(self)@ == s,
                Err(e) => res == Err::<(), StepFault>(e) && final(self)@ == old(self)@,
            },
    {
        if r >= REGISTER_COUNT {
            return Err(StepFault::Abort);
        }
        self.registers[r as usize] = v;
        Ok(())
    }

    fn read_memory_address(&self, idx: u8) -> (res: Result<u8, StepFault>)
        ensures
            res == self@.read_data(idx),
    {
        match self.program_bytes.checked_add(idx) {
            None => Err(StepFault::Error(RuntimeError::OutOfBoundsRead(idx as usize))),
            Some(address) => Ok(self.memory[address as usize]),
        }
    }

    fn write_memory_address(&mut self, val: u8, idx: u8) -> (res: Result<(), StepFault>)
        ensures
            match old(self)@.write_data(idx, val) {
                Ok(s) => res == Ok::<(), StepFault>(()) && final(self)@ == s,
                Err(e) => res == Err::<(), StepFault>(e) && final(self)@ == old(self)@,
            },
    {
        match self.program_bytes.checked_add(idx) {
            None => Err(StepFault::Error(RuntimeError::OutOfBoundsWrite(idx as usize))),
            Some(address) => {
                self.memory[address as usize] = val;
                Ok(())
            },
        }
    }

    fn alu_exec(op: RuntimeOpcode, a: u8, b: u8) -> (res: u8)
        ensures
            res == alu(op, a, b),
    {
        match op {
            RuntimeOpcode::AddRegister | RuntimeOpcode::AddLiteral => a.wrapping_add(b),
            RuntimeOpcode::SubRegister | RuntimeOpcode::SubLiteral => a.wrapping_sub(b),
            RuntimeOpcode::AndRegister | RuntimeOpcode::AndLiteral => a & b,
            RuntimeOpcode::OrrRegister | RuntimeOpcode::OrrLiteral => a | b,
            RuntimeOpcode::EorRegister | RuntimeOpcode::EorLiteral => a ^ b,
            RuntimeOpcode::LslRegister | RuntimeOpcode::LslLiteral => if b >= 8 {
                0
            } else {
                a << b
            },
            RuntimeOpcode::LsrRegister | RuntimeOpcode::LsrLiteral => if b >= 8 {
                0
            } else {
                a >> b
            },
            _ => 0,
        }
    }

    fn interpret_alu_register(&mut self, op: RuntimeOpcode) -> (res: Result<StepOutcome, StepFault>)
        requires
            old(self)@.wf(),
        ensures
            final(self)@.wf(),
            final(self)@.memory == old(self)@.memory,
            match old(self)@.exec_alu_register(op) {
                Ok((s, out)) => res == Ok::<StepOutcome, StepFault>(out) && final(self)@ == s,
                Err(e) => res == Err::<StepOutcome, StepFault>(e) && final(self)@.registers == old(self)@.registers,
            },
    {
        let rd = self.read_next_memory_address()?;
        let rn = self.read_next_memory_address()?;
        let a = self.register(rn)?;
        let rm = self.read_next_memory_address()?;
        let b = self.register(rm)?;
        self.set_register(rd, Self::alu_exec(op, a, b))?;
        Ok(StepOutcome::Continue)
    }

    fn interpret_alu_literal(&mut self, op: RuntimeOpcode) -> (res: Result<StepOutcome, StepFault>)
        requires
            old(self)@.wf(),
        ensures
            final(self)@.wf(),
            final(self)@.memory == old(self)@.memory,
            match old(self)@.exec_alu_literal(op) {
                Ok((s, out)) => res == Ok::<StepOutcome, StepFault>(out) && final(self)@ == s,
                Err(e) => res == Err::<StepOutcome, StepFault>(e) && final(self)@.registers == old(self)@.registers,
            },
    {
        let rd = self.read_next_memory_address()?;
        let rn = self.read_next_memory_address()?;
        let a = self.register(rn)?;
        let lit = self.read_next_memory_address()?;
        self.set_register(rd, Self::alu_exec(op, a, lit))?;
        Ok(StepOutcome::Continue)
    }

    fn interpret_move_register(&mut self, invert: bool) -> (res: Result<StepOutcome, StepFault>)
        requires
            old(self)@.wf(),
        ensures
            final(self)@.wf(),
            final(self)@.memory == old(self)@.memory,
            match old(self)@.exec_move_register(invert) {
                Ok((s, out)) => res == Ok::<StepOutcome, StepFault>(out) && final(self)@ == s,
                Err(e) => res == Err::<StepOutcome, StepFault>(e) && final(self)@.registers == old(self)@.registers,
            },
    {
        let rd = self.read_next_memory_address()?;
        let rn = self.read_next_memory_address()?;
        let a = self.register(rn)?;
        let v = if invert { !a } else { a };
        self.set_register(rd, v)?;
        Ok(StepOutcome::Continue)
    }

    fn interpret_move_literal(&mut self, invert: bool) -> (res: Result<StepOutcome, StepFault>)
        requires
            old(self)@.wf(),
        ensures
            final(self)@.wf(),
            final(self)@.memory == old(self)@.memory,
            match old(self)@.exec_move_literal(invert) {
                Ok((s, out)) => res == Ok::<StepOutcome, StepFault>(out) && final(self)@ == s,
                Err(e) => res == Err::<StepOutcome, StepFault>(e) && final(self)@.registers == old(self)@.registers,
            },
    {
        let rd = self.read_next_memory_address()?;
        let lit = self.read_next_memory_address()?;
        let v = if invert { !lit } else { lit };
        self.set_register(rd, v)?;
        Ok(StepOutcome::Continue)
    }

    fn interpret_cmp_register(&mut self) -> (res: Result<StepOutcome, StepFault>)
        requires
            old(self)@.wf(),
        ensures
            final(self)@.wf(),
            final(self)@.memory == old(self)@.memory,
            final(self)@.registers == old(self)@.registers,
            match old(self)@.exec_cmp_register() {
                Ok((s, out)) => res == Ok::<StepOutcome, StepFault>(out) && final(self)@ == s,
                Err(e) => res == Err::<StepOutcome, StepFault>(e),
            },
    {
        let rn = self.read_next_memory_address()?;
        let rm = self.read_next_memory_address()?;
        let b = self.register(rm)?;
        let a = self.register(rn)?;
        self.underflow = b > a;
        self.comparison_result = a.wrapping_sub(b);
        Ok(StepOutcome::Continue)
    }

    fn interpret_cmp_literal(&mut self) -> (res: Result<StepOutcome, StepFault>)
        requires
            old(self)@.wf(),
        ensures
            final(self)@.wf(),
            final(self)@.memory == old(self)@.memory,
            final(self)@.registers == old(self)@.registers,
            match old(self)@.exec_cmp_literal() {
                Ok((s, out)) => res == Ok::<StepOutcome, StepFault>(out) && final(self)@ == s,
                Err(e) => res == Err::<StepOutcome, StepFault>(e),
            },
    {
        let rn = self.read_next_memory_address()?;
        let lit = self.read_next_memory_address()?;
        let a = self.register(rn)?;
        self.underflow = lit > a;
        self.comparison_result = a.wrapping_sub(lit);
        Ok(StepOutcome::Continue)
    }

    fn interpret_branch(&mut self, taken: bool) -> (res: Result<StepOutcome, StepFault>)
        requires
            old(self)@.wf(),
        ensures
            final(self)@.wf(),
            final(self)@.memory == old(self)@.memory,
            final(self)@.registers == old(self)@.registers,
            match old(self)@.exec_branch(taken) {
                Ok((s, out)) => res == Ok::<StepOutcome, StepFault>(out) && final(self)@ == s,
                Err(e) => res == Err::<StepOutcome, StepFault>(e),
            },
    {
        if taken {
            let target = self.read_next_memory_address()?;
            self.program_counter = target;
        } else {
            if self.program_counter == 255 {
                return Err(StepFault::Abort);
            }
            self.program_counter = self.program_counter + 1;
        }
        Ok(StepOutcome::Continue)
    }

    fn interpret_ldr(&mut self) -> (res: Result<StepOutcome, StepFault>)
        requires
            old(self)@.wf(),
        ensures
            final(self)@.wf(),
            final(self)@.memory == old(self)@.memory,
            match old(self)@.execute(RuntimeOpcode::Ldr) {
                Ok((s, out)) => res == Ok::<StepOutcome, StepFault>(out) && final(self)@ == s,
                Err(e) => res == Err::<StepOutcome, StepFault>(e) && final(self)@.registers == old(self)@.registers,
            },
    {
        let rd = self.read_next_memory_address()?;
        let idx = self.read_next_memory_address()?;
        let v = self.read_memory_address(idx)?;
        self.set_register(rd, v)?;
        Ok(StepOutcome::Continue)
    }

    fn interpret_str(&mut self) -> (res: Result<StepOutcome, StepFault>)
        requires
            old(self)@.wf(),
        ensures
            final(self)@.wf(),
            final(self)@.registers == old(self)@.registers,
            match old(self)@.execute(RuntimeOpcode::Str) {
                Ok((s, out)) => res == Ok::<StepOutcome, StepFault>(out) && final(self)@ == s,
                Err(e) => res == Err::<StepOutcome, StepFault>(e) && final(self)@.memory == old(self)@.memory,
            },
    {
        let rs = self.read_next_memory_address()?;
        let idx = self.read_next_memory_address()?;
        let v = self.register(rs)?;
        self.write_memory_address(v, idx)?;
        Ok(StepOutcome::Continue)
    }

    fn interpret_print_register(&mut self) -> (res: Result<StepOutcome, StepFault>)
        requires
            old(self)@.wf(),
        ensures
            final(self)@.wf(),
            final(self)@.memory == old(self)@.memory,
            final(self)@.registers == old(self)@.registers,
            match old(self)@.execute(RuntimeOpcode::PrintRegister) {
                Ok((s, out)) => res == Ok::<StepOutcome, StepFault>(out) && final(self)@ == s,
                Err(e) => res == Err::<StepOutcome, StepFault>(e),
            },
    {
        let r = self.read_next_memory_address()?;
        let v = self.register(r)?;
        Ok(StepOutcome::Print(v))
    }

    fn interpret_print_memory(&mut self) -> (res: Result<StepOutcome, StepFault>)
        requires
            old(self)@.wf(),
        ensures
            final(self)@.wf(),
            final(self)@.memory == old(self)@.memory,
            final(self)@.registers == old(self)@.registers,
            match old(self)@.execute(RuntimeOpcode::PrintMemory) {
                Ok((s, out)) => res == Ok::<StepOutcome, StepFault>(out) && final(self)@ == s,
                Err(e) => res == Err::<StepOutcome, StepFault>(e),
            },
    {
        let idx = self.read_next_memory_address()?;
        let v = self.read_memory_address(idx)?;
        Ok(StepOutcome::Print(v))
    }

    fn interpret_input(&mut self, to_register: bool) -> (res: Result<StepOutcome, StepFault>)
        requires
            old(self)@.wf(),
        ensures
            final(self)@.wf(),
            final(self)@.memory == old(self)@.memory,
            final(self)@.registers == old(self)@.registers,
            match old(self)@.execute(if to_register { RuntimeOpcode::InputRegister } else { RuntimeOpcode::InputMemory }) {
                Ok((s, out)) => res == Ok::<StepOutcome, StepFault>(out) && final(self)@ == s,
                Err(e) => res == Err::<StepOutcome, StepFault>(e),
            },
    {
        let operand = self.read_next_memory_address()?;
        if to_register {
            Ok(StepOutcome::Input(InputTarget::Register(operand)))
        } else {
            Ok(StepOutcome::Input(InputTarget::Memory(operand)))
        }
    }

    /// Executes one instruction, reporting an abort as a value.
    pub fn try_step(&mut self) -> (res: Result<StepOutcome, StepFault>)
        ensures
            match old(self)@.step() {
                Ok((s, out)) => res == Ok::<StepOutcome, StepFault>(out) && final(self)@ == s,
                Err(e) => res == Err::<StepOutcome, StepFault>(e) && final(self)@.memory == old(self)@.memory
                    && final(self)@.registers == old(self)@.registers,
            },
    {
        assert(self@.wf());
        let byte = self.read_next_memory_address()?;
        let op = match RuntimeOpcode::from_code(byte) {
            Ok(op) => op,
            Err(()) => {
                return Err(StepFault::Abort);
            },
        };
        match op {
            RuntimeOpcode::Nop => Ok(StepOutcome::Continue),
            RuntimeOpcode::Halt => Ok(StepOutcome::Halt),
            RuntimeOpcode::Ldr => self.interpret_ldr(),
            RuntimeOpcode::Str => self.interpret_str(),
            RuntimeOpcode::AddRegister | RuntimeOpcode::SubRegister | RuntimeOpcode::AndRegister
            | RuntimeOpcode::OrrRegister | RuntimeOpcode::EorRegister | RuntimeOpcode::LslRegister
            | RuntimeOpcode::LsrRegister => self.interpret_alu_register(op),
            RuntimeOpcode::AddLiteral | RuntimeOpcode::SubLiteral | RuntimeOpcode::AndLiteral
            | RuntimeOpcode::OrrLiteral | RuntimeOpcode::EorLiteral | RuntimeOpcode::LslLiteral
            | RuntimeOpcode::LsrLiteral => self.interpret_alu_literal(op),
            RuntimeOpcode::MovRegister => self.interpret_move_register(false),
            RuntimeOpcode::MvnRegister => self.interpret_move_register(true),
            RuntimeOpcode::MovLiteral => self.interpret_move_literal(false),
            RuntimeOpcode::MvnLiteral => self.interpret_move_literal(true),
            RuntimeOpcode::CmpRegister => self.interpret_cmp_register(),
            RuntimeOpcode::CmpLiteral => self.interpret_cmp_literal(),
            RuntimeOpcode::B => self.interpret_branch(true),
            RuntimeOpcode::Beq => {
                let taken = self.comparison_result == 0;
                self.interpret_branch(taken)
            },
            RuntimeOpcode::Bne => {
                let taken = self.comparison_result != 0;
                self.interpret_branch(taken)
            },
            RuntimeOpcode::Bgt => {
                let taken = self.comparison_result != 0 && !self.underflow;
                self.interpret_branch(taken)
            },
            RuntimeOpcode::Blt => {
                let taken = self.underflow;
                self.interpret_branch(taken)
            },
            RuntimeOpcode::PrintRegister => self.interpret_print_register(),
            RuntimeOpcode::PrintMemory => self.interpret_print_memory(),
            RuntimeOpcode::InputRegister => self.interpret_input(true),
            RuntimeOpcode::InputMemory => self.interpret_input(false),
        }
    }

    /// Whether the next instruction would abort the interpreter (an
    /// undefined opcode byte, a register number of 13 or more, or a skipped
    /// branch operand at the very end of memory).
    pub fn step_aborts(&self) -> (res: bool)
        ensures
            res == (self@.step() == Err::<(MachineState, StepOutcome), StepFault>(StepFault::Abort)),
    {
        let mut probe = *self;
        match probe.try_step() {
            Err(StepFault::Abort) => true,
            _ => false,
        }
    }

    /// Executes one instruction: reads the opcode byte at the program
    /// counter, then its operands, and carries it out.
    pub fn step(&mut self) -> (res: Result<StepOutcome, RuntimeError>)
        requires
            old(self)@.step() != Err::<(MachineState, StepOutcome), StepFault>(StepFault::Abort),
        ensures
            match old(self)@.step() {
                Ok((s, out)) => res == Ok::<StepOutcome, RuntimeError>(out) && final(self)@ == s,
                Err(StepFault::Error(e)) => res == Err::<StepOutcome, RuntimeError>(e)
                    && final(self)@.memory == old(self)@.memory
                    && final(self)@.registers == old(self)@.registers,
                Err(StepFault::Abort) => false,
            },
    {
        match self.try_step() {
            Ok(out) => Ok(out),
            Err(StepFault::Error(e)) => Err(e),
            Err(StepFault::Abort) => Err(RuntimeError::ReadPastMemory),
        }
    }

    /// Stores the value that an `INPUT` instruction asked for.
    pub fn provide_input(&mut self, target: InputTarget, value: u8) -> (res: Result<(), RuntimeError>)
        requires
            target matches InputTarget::Register(r) ==> r < REGISTER_COUNT,
        ensures
            match old(self)@.store_input(target, value) {
                Ok(s) => res == Ok::<(), RuntimeError>(()) && final(self)@ == s,
                Err(StepFault::Error(e)) => res == Err::<(), RuntimeError>(e) && final(self)@ == old(self)@,
                Err(StepFault::Abort) => false,
            },
    {
        let r = match target {
            InputTarget::Register(r) => self.set_register(r, value),
            InputTarget::Memory(idx) => self.write_memory_address(value, idx),
        };
        match r {
            Ok(()) => Ok(()),
            Err(StepFault::Error(e)) => Err(e),
            Err(StepFault::Abort) => Err(RuntimeError::ReadPastMemory),
        }
    }
}

} // verus!
