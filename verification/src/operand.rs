use vstd::prelude::*;
use crate::signature::SignatureArgument;

verus! {

/// An instruction operand as written in source text.
#[derive(Debug, Clone, Copy, PartialEq, Eq, Hash, PartialOrd, Ord, Structural)]
pub enum Operand {
    /// `#n`, the number itself.
    Literal(u8),
    /// `Rn`, a register number.
    Register(u8),
    /// `n`, an offset into the data memory that follows the program.
    MemoryRef(u8),
    /// A label operand; its byte is resolved by the parser.
    Label,
}

impl Operand {
    /// The kind of argument this operand supplies to an instruction signature.
    pub open spec fn spec_signature_argument(self) -> SignatureArgument {
        match self {
            Operand::Literal(_) => SignatureArgument::Literal,
            Operand::Register(_) => SignatureArgument::Register,
            Operand::MemoryRef(_) => SignatureArgument::MemoryRef,
            Operand::Label => SignatureArgument::Label,
        }
    }

    pub fn get_signature_argument(&self) -> (res: SignatureArgument)
        ensures
            res == self.spec_signature_argument(),
    {
        match self {
            Operand::Literal(_) => SignatureArgument::Literal,
            Operand::Register(_) => SignatureArgument::Register,
            Operand::MemoryRef(_) => SignatureArgument::MemoryRef,
            Operand::Label => SignatureArgument::Label,
        }
    }
}

/// The signature arguments of a sequence of operands.
pub open spec fn signature_of(operands: Seq<Operand>) -> Seq<SignatureArgument> {
    operands.map_values(|o: Operand| o.spec_signature_argument())
}

} // verus!
