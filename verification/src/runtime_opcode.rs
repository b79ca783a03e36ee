use vstd::prelude::*;

verus! {

/// Runtime opcodes are the opcodes actually executed by the interpreter.
/// One source opcode can stand for several runtime opcodes, chosen by the
/// kinds of its operands: `MOV R5, R5` loads as `MovRegister 5 5` and
/// `MOV R5, #5` as `MovLiteral 5 5`. In memory each is encoded as its
/// position in this declaration.
#[derive(Debug, Clone, Copy, PartialEq, Eq, Hash, PartialOrd, Ord, Structural)]
pub enum RuntimeOpcode {
    Nop,
    Ldr,
    Str,
    AddRegister,
    AddLiteral,
    SubRegister,
    SubLiteral,
    MovRegister,
    MovLiteral,
    CmpRegister,
    CmpLiteral,
    B,
    Beq,
    Bne,
    Bgt,
    Blt,
    AndRegister,
    AndLiteral,
    OrrRegister,
    OrrLiteral,
    EorRegister,
    EorLiteral,
    MvnRegister,
    MvnLiteral,
    LslRegister,
    LslLiteral,
    LsrRegister,
    LsrLiteral,
    PrintRegister,
    PrintMemory,
    InputRegister,
    InputMemory,
    Halt,
}

/// Number of runtime opcodes; valid encodings are `0..RUNTIME_OPCODE_COUNT`.
pub const RUNTIME_OPCODE_COUNT: u8 = 33;

impl RuntimeOpcode {
    /// The byte that encodes this opcode in memory.
    pub open spec fn spec_code(self) -> u8 {
        match self {
            RuntimeOpcode::Nop => 0,
            RuntimeOpcode::Ldr => 1,
            RuntimeOpcode::Str => 2,
            RuntimeOpcode::AddRegister => 3,
            RuntimeOpcode::AddLiteral => 4,
            RuntimeOpcode::SubRegister => 5,
            RuntimeOpcode::SubLiteral => 6,
            RuntimeOpcode::MovRegister => 7,
            RuntimeOpcode::MovLiteral => 8,
            RuntimeOpcode::CmpRegister => 9,
            RuntimeOpcode::CmpLiteral => 10,
            RuntimeOpcode::B => 11,
            RuntimeOpcode::Beq => 12,
            RuntimeOpcode::Bne => 13,
            RuntimeOpcode::Bgt => 14,
            RuntimeOpcode::Blt => 15,
            RuntimeOpcode::AndRegister => 16,
            RuntimeOpcode::AndLiteral => 17,
            RuntimeOpcode::OrrRegister => 18,
            RuntimeOpcode::OrrLiteral => 19,
            RuntimeOpcode::EorRegister => 20,
            RuntimeOpcode::EorLiteral => 21,
            RuntimeOpcode::MvnRegister => 22,
            RuntimeOpcode::MvnLiteral => 23,
            RuntimeOpcode::LslRegister => 24,
            RuntimeOpcode::LslLiteral => 25,
            RuntimeOpcode::LsrRegister => 26,
            RuntimeOpcode::LsrLiteral => 27,
            RuntimeOpcode::PrintRegister => 28,
            RuntimeOpcode::PrintMemory => 29,
            RuntimeOpcode::InputRegister => 30,
            RuntimeOpcode::InputMemory => 31,
            RuntimeOpcode::Halt => 32,
        }
    }

    /// The opcode that a byte encodes, if any.
    pub open spec fn spec_from_code(v: u8) -> Option<RuntimeOpcode> {
        match v {
            0 => Some(RuntimeOpcode::Nop),
            1 => Some(RuntimeOpcode::Ldr),
            2 => Some(RuntimeOpcode::Str),
            3 => Some(RuntimeOpcode::AddRegister),
            4 => Some(RuntimeOpcode::AddLiteral),
            5 => Some(RuntimeOpcode::SubRegister),
            6 => Some(RuntimeOpcode::SubLiteral),
            7 => Some(RuntimeOpcode::MovRegister),
            8 => Some(RuntimeOpcode::MovLiteral),
            9 => Some(RuntimeOpcode::CmpRegister),
            10 => Some(RuntimeOpcode::CmpLiteral),
            11 => Some(RuntimeOpcode::B),
            12 => Some(RuntimeOpcode::Beq),
            13 => Some(RuntimeOpcode::Bne),
            14 => Some(RuntimeOpcode::Bgt),
            15 => Some(RuntimeOpcode::Blt),
            16 => Some(RuntimeOpcode::AndRegister),
            17 => Some(RuntimeOpcode::AndLiteral),
            18 => Some(RuntimeOpcode::OrrRegister),
            19 => Some(RuntimeOpcode::OrrLiteral),
            20 => Some(RuntimeOpcode::EorRegister),
            21 => Some(RuntimeOpcode::EorLiteral),
            22 => Some(RuntimeOpcode::MvnRegister),
            23 => Some(RuntimeOpcode::MvnLiteral),
            24 => Some(RuntimeOpcode::LslRegister),
            25 => Some(RuntimeOpcode::LslLiteral),
            26 => Some(RuntimeOpcode::LsrRegister),
            27 => Some(RuntimeOpcode::LsrLiteral),
            28 => Some(RuntimeOpcode::PrintRegister),
            29 => Some(RuntimeOpcode::PrintMemory),
            30 => Some(RuntimeOpcode::InputRegister),
            31 => Some(RuntimeOpcode::InputMemory),
            32 => Some(RuntimeOpcode::Halt),
            _ => None,
        }
    }

    /// The byte that encodes this opcode in memory.
    pub fn code(&self) -> (res: u8)
        ensures
            res == self.spec_code(),
    {
        match self {
            RuntimeOpcode::Nop => 0,
            RuntimeOpcode::Ldr => 1,
            RuntimeOpcode::Str => 2,
            RuntimeOpcode::AddRegister => 3,
            RuntimeOpcode::AddLiteral => 4,
            RuntimeOpcode::SubRegister => 5,
            RuntimeOpcode::SubLiteral => 6,
            RuntimeOpcode::MovRegister => 7,
            RuntimeOpcode::MovLiteral => 8,
            RuntimeOpcode::CmpRegister => 9,
            RuntimeOpcode::CmpLiteral => 10,
            RuntimeOpcode::B => 11,
            RuntimeOpcode::Beq => 12,
            RuntimeOpcode::Bne => 13,
            RuntimeOpcode::Bgt => 14,
            RuntimeOpcode::Blt => 15,
            RuntimeOpcode::AndRegister => 16,
            RuntimeOpcode::AndLiteral => 17,
            RuntimeOpcode::OrrRegister => 18,
            RuntimeOpcode::OrrLiteral => 19,
            RuntimeOpcode::EorRegister => 20,
            RuntimeOpcode::EorLiteral => 21,
            RuntimeOpcode::MvnRegister => 22,
            RuntimeOpcode::MvnLiteral => 23,
            RuntimeOpcode::LslRegister => 24,
            RuntimeOpcode::LslLiteral => 25,
            RuntimeOpcode::LsrRegister => 26,
            RuntimeOpcode::LsrLiteral => 27,
            RuntimeOpcode::PrintRegister => 28,
            RuntimeOpcode::PrintMemory => 29,
            RuntimeOpcode::InputRegister => 30,
            RuntimeOpcode::InputMemory => 31,
            RuntimeOpcode::Halt => 32,
        }
    }

    /// Decodes a byte: `Ok` exactly for the bytes `0..33`.
    pub fn from_code(v: u8) -> (res: Result<RuntimeOpcode, ()>)
        ensures
            res == (match RuntimeOpcode::spec_from_code(v) {
                Some(op) => Ok(op),
                None => Err(()),
            }),
            res is Err <==> v >= RUNTIME_OPCODE_COUNT,
            res matches Ok(op) ==> op.spec_code() == v,
    {
        match v {
            0 => Ok(RuntimeOpcode::Nop),
            1 => Ok(RuntimeOpcode::Ldr),
            2 => Ok(RuntimeOpcode::Str),
            3 => Ok(RuntimeOpcode::AddRegister),
            4 => Ok(RuntimeOpcode::AddLiteral),
            5 => Ok(RuntimeOpcode::SubRegister),
            6 => Ok(RuntimeOpcode::SubLiteral),
            7 => Ok(RuntimeOpcode::MovRegister),
            8 => Ok(RuntimeOpcode::MovLiteral),
            9 => Ok(RuntimeOpcode::CmpRegister),
            10 => Ok(RuntimeOpcode::CmpLiteral),
            11 => Ok(RuntimeOpcode::B),
            12 => Ok(RuntimeOpcode::Beq),
            13 => Ok(RuntimeOpcode::Bne),
            14 => Ok(RuntimeOpcode::Bgt),
            15 => Ok(RuntimeOpcode::Blt),
            16 => Ok(RuntimeOpcode::AndRegister),
            17 => Ok(RuntimeOpcode::AndLiteral),
            18 => Ok(RuntimeOpcode::OrrRegister),
            19 => Ok(RuntimeOpcode::OrrLiteral),
            20 => Ok(RuntimeOpcode::EorRegister),
            21 => Ok(RuntimeOpcode::EorLiteral),
            22 => Ok(RuntimeOpcode::MvnRegister),
            23 => Ok(RuntimeOpcode::MvnLiteral),
            24 => Ok(RuntimeOpcode::LslRegister),
            25 => Ok(RuntimeOpcode::LslLiteral),
            26 => Ok(RuntimeOpcode::LsrRegister),
            27 => Ok(RuntimeOpcode::LsrLiteral),
            28 => Ok(RuntimeOpcode::PrintRegister),
            29 => Ok(RuntimeOpcode::PrintMemory),
            30 => Ok(RuntimeOpcode::InputRegister),
            31 => Ok(RuntimeOpcode::InputMemory),
            32 => Ok(RuntimeOpcode::Halt),
            _ => Err(()),
        }
    }
}

/// Decoding a byte gives back the opcode that was encoded: for every
/// opcode, decoding its encoding gives that opcode.
pub proof fn lemma_code_roundtrip(op: RuntimeOpcode)
    ensures
        RuntimeOpcode::spec_from_code(op.spec_code()) == Some(op),
        op.spec_code() < RUNTIME_OPCODE_COUNT,
{
}

/// A byte decodes to an opcode exactly when it is below the opcode count, and
/// then that opcode encodes back to the same byte.
pub proof fn lemma_decode_encode(v: u8)
    ensures
        RuntimeOpcode::spec_from_code(v) is Some <==> v < RUNTIME_OPCODE_COUNT,
        RuntimeOpcode::spec_from_code(v) matches Some(op) ==> op.spec_code() == v,
{
}

impl vstd::std_specs::convert::TryFromSpecImpl<u8> for RuntimeOpcode {
    open spec fn obeys_try_from_spec() -> bool {
        true
    }

    open spec fn try_from_spec(v: u8) -> Result<Self, ()> {
        match RuntimeOpcode::spec_from_code(v) {
            Some(op) => Ok(op),
            None => Err(()),
        }
    }
}

impl std::convert::TryFrom<u8> for RuntimeOpcode {
    type Error = ();

    fn try_from(v: u8) -> Result<Self, Self::Error> {
        RuntimeOpcode::from_code(v)
    }
}

} // verus!
