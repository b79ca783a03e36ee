use vstd::prelude::*;
use crate::text::{chars_eq_str, str_to_chars};

verus! {

/// Source opcodes are the opcode mnemonics found in source files.
#[derive(Debug, Clone, Copy, PartialEq, Eq, Hash, Structural)]
pub enum SourceOpcode {
    Nop,
    Ldr,
    Str,
    Add,
    Sub,
    Mov,
    Cmp,
    B,
    Beq,
    Bne,
    Bgt,
    Blt,
    And,
    Orr,
    Eor,
    Mvn,
    Lsl,
    Lsr,
    Print,
    Input,
    Halt,
}

impl SourceOpcode {
    /// The mnemonic that stands for this opcode in source text.
    pub open spec fn spec_name(self) -> Seq<char> {
        match self {
            SourceOpcode::Nop => "NOP"@,
            SourceOpcode::Ldr => "LDR"@,
            SourceOpcode::Str => "STR"@,
            SourceOpcode::Add => "ADD"@,
            SourceOpcode::Sub => "SUB"@,
            SourceOpcode::Mov => "MOV"@,
            SourceOpcode::Cmp => "CMP"@,
            SourceOpcode::B => "B"@,
            SourceOpcode::Beq => "BEQ"@,
            SourceOpcode::Bne => "BNE"@,
            SourceOpcode::Bgt => "BGT"@,
            SourceOpcode::Blt => "BLT"@,
            SourceOpcode::And => "AND"@,
            SourceOpcode::Orr => "ORR"@,
            SourceOpcode::Eor => "EOR"@,
            SourceOpcode::Mvn => "MVN"@,
            SourceOpcode::Lsl => "LSL"@,
            SourceOpcode::Lsr => "LSR"@,
            SourceOpcode::Print => "PRINT"@,
            SourceOpcode::Input => "INPUT"@,
            SourceOpcode::Halt => "HALT"@,
        }
    }

    /// The opcode whose mnemonic is exactly `s`, if there is one.
    pub open spec fn spec_from_name(s: Seq<char>) -> Option<SourceOpcode> {
        if s == "NOP"@ {
            Some(SourceOpcode::Nop)
        } else if s == "LDR"@ {
            Some(SourceOpcode::Ldr)
        } else if s == "STR"@ {
            Some(SourceOpcode::Str)
        } else if s == "ADD"@ {
            Some(SourceOpcode::Add)
        } else if s == "SUB"@ {
            Some(SourceOpcode::Sub)
        } else if s == "MOV"@ {
            Some(SourceOpcode::Mov)
        } else if s == "CMP"@ {
            Some(SourceOpcode::Cmp)
        } else if s == "B"@ {
            Some(SourceOpcode::B)
        } else if s == "BEQ"@ {
            Some(SourceOpcode::Beq)
        } else if s == "BNE"@ {
            Some(SourceOpcode::Bne)
        } else if s == "BGT"@ {
            Some(SourceOpcode::Bgt)
        } else if s == "BLT"@ {
            Some(SourceOpcode::Blt)
        } else if s == "AND"@ {
            Some(SourceOpcode::And)
        } else if s == "ORR"@ {
            Some(SourceOpcode::Orr)
        } else if s == "EOR"@ {
            Some(SourceOpcode::Eor)
        } else if s == "MVN"@ {
            Some(SourceOpcode::Mvn)
        } else if s == "LSL"@ {
            Some(SourceOpcode::Lsl)
        } else if s == "LSR"@ {
            Some(SourceOpcode::Lsr)
        } else if s == "PRINT"@ {
            Some(SourceOpcode::Print)
        } else if s == "INPUT"@ {
            Some(SourceOpcode::Input)
        } else if s == "HALT"@ {
            Some(SourceOpcode::Halt)
        } else {
            None
        }
    }

    /// The mnemonic of this opcode, as it is written in source text and messages.
    pub fn name(&self) -> (res: &'static str)
        ensures
            res@ == self.spec_name(),
    {
        match self {
            SourceOpcode::Nop => "NOP",
            SourceOpcode::Ldr => "LDR",
            SourceOpcode::Str => "STR",
            SourceOpcode::Add => "ADD",
            SourceOpcode::Sub => "SUB",
            SourceOpcode::Mov => "MOV",
            SourceOpcode::Cmp => "CMP",
            SourceOpcode::B => "B",
            SourceOpcode::Beq => "BEQ",
            SourceOpcode::Bne => "BNE",
            SourceOpcode::Bgt => "BGT",
            SourceOpcode::Blt => "BLT",
            SourceOpcode::And => "AND",
            SourceOpcode::Orr => "ORR",
            SourceOpcode::Eor => "EOR",
            SourceOpcode::Mvn => "MVN",
            SourceOpcode::Lsl => "LSL",
            SourceOpcode::Lsr => "LSR",
            SourceOpcode::Print => "PRINT",
            SourceOpcode::Input => "INPUT",
            SourceOpcode::Halt => "HALT",
        }
    }

    /// Recognises a mnemonic given as a sequence of characters. Matching is
    /// exact: case and surrounding whitespace matter.
    pub fn from_chars(s: &Vec<char>) -> (res: Result<SourceOpcode, ()>)
        ensures
            res == (match SourceOpcode::spec_from_name(s@) {
                Some(op) => Ok(op),
                None => Err(()),
            }),
    {
        if chars_eq_str(s, "NOP") {
            Ok(SourceOpcode::Nop)
        } else if chars_eq_str(s, "LDR") {
            Ok(SourceOpcode::Ldr)
        } else if chars_eq_str(s, "STR") {
            Ok(SourceOpcode::Str)
        } else if chars_eq_str(s, "ADD") {
            Ok(SourceOpcode::Add)
        } else if chars_eq_str(s, "SUB") {
            Ok(SourceOpcode::Sub)
        } else if chars_eq_str(s, "MOV") {
            Ok(SourceOpcode::Mov)
        } else if chars_eq_str(s, "CMP") {
            Ok(SourceOpcode::Cmp)
        } else if chars_eq_str(s, "B") {
            Ok(SourceOpcode::B)
        } else if chars_eq_str(s, "BEQ") {
            Ok(SourceOpcode::Beq)
        } else if chars_eq_str(s, "BNE") {
            Ok(SourceOpcode::Bne)
        } else if chars_eq_str(s, "BGT") {
            Ok(SourceOpcode::Bgt)
        } else if chars_eq_str(s, "BLT") {
            Ok(SourceOpcode::Blt)
        } else if chars_eq_str(s, "AND") {
            Ok(SourceOpcode::And)
        } else if chars_eq_str(s, "ORR") {
            Ok(SourceOpcode::Orr)
        } else if chars_eq_str(s, "EOR") {
            Ok(SourceOpcode::Eor)
        } else if chars_eq_str(s, "MVN") {
            Ok(SourceOpcode::Mvn)
        } else if chars_eq_str(s, "LSL") {
            Ok(SourceOpcode::Lsl)
        } else if chars_eq_str(s, "LSR") {
            Ok(SourceOpcode::Lsr)
        } else if chars_eq_str(s, "PRINT") {
            Ok(SourceOpcode::Print)
        } else if chars_eq_str(s, "INPUT") {
            Ok(SourceOpcode::Input)
        } else if chars_eq_str(s, "HALT") {
            Ok(SourceOpcode::Halt)
        } else {
            Err(())
        }
    }

    /// Position of the opcode in declaration order.
    pub open spec fn index(self) -> int {
        match self {
            SourceOpcode::Nop => 0,
            SourceOpcode::Ldr => 1,
            SourceOpcode::Str => 2,
            SourceOpcode::Add => 3,
            SourceOpcode::Sub => 4,
            SourceOpcode::Mov => 5,
            SourceOpcode::Cmp => 6,
            SourceOpcode::B => 7,
            SourceOpcode::Beq => 8,
            SourceOpcode::Bne => 9,
            SourceOpcode::Bgt => 10,
            SourceOpcode::Blt => 11,
            SourceOpcode::And => 12,
            SourceOpcode::Orr => 13,
            SourceOpcode::Eor => 14,
            SourceOpcode::Mvn => 15,
            SourceOpcode::Lsl => 16,
            SourceOpcode::Lsr => 17,
            SourceOpcode::Print => 18,
            SourceOpcode::Input => 19,
            SourceOpcode::Halt => 20,
        }
    }

    /// Position of the opcode in declaration order.
    pub fn ordinal(&self) -> (res: usize)
        ensures
            res == self.index(),
            res < 21,
    {
        match self {
            SourceOpcode::Nop => 0,
            SourceOpcode::Ldr => 1,
            SourceOpcode::Str => 2,
            SourceOpcode::Add => 3,
            SourceOpcode::Sub => 4,
            SourceOpcode::Mov => 5,
            SourceOpcode::Cmp => 6,
            SourceOpcode::B => 7,
            SourceOpcode::Beq => 8,
            SourceOpcode::Bne => 9,
            SourceOpcode::Bgt => 10,
            SourceOpcode::Blt => 11,
            SourceOpcode::And => 12,
            SourceOpcode::Orr => 13,
            SourceOpcode::Eor => 14,
            SourceOpcode::Mvn => 15,
            SourceOpcode::Lsl => 16,
            SourceOpcode::Lsr => 17,
            SourceOpcode::Print => 18,
            SourceOpcode::Input => 19,
            SourceOpcode::Halt => 20,
        }
    }

    /// Recognises a mnemonic given as a string.
    pub fn parse(s: &str) -> (res: Result<SourceOpcode, ()>)
        ensures
            res == (match SourceOpcode::spec_from_name(s@) {
                Some(op) => Ok(op),
                None => Err(()),
            }),
    {
        let chars = str_to_chars(s);
        Self::from_chars(&chars)
    }
}

spec fn name_key(s: Seq<char>) -> (int, char, char, char) {
    (s.len() as int, s[0], s[1], s[2])
}

/// Every opcode is recognised by its own mnemonic, and by no other.
pub proof fn lemma_name_roundtrip(op: SourceOpcode, s: Seq<char>)
    ensures
        SourceOpcode::spec_from_name(op.spec_name()) == Some(op),
        SourceOpcode::spec_from_name(s) == Some(op) ==> s == op.spec_name(),
{
    reveal_strlit("NOP");
    reveal_strlit("LDR");
    reveal_strlit("STR");
    reveal_strlit("ADD");
    reveal_strlit("SUB");
    reveal_strlit("MOV");
    reveal_strlit("CMP");
    reveal_strlit("B");
    reveal_strlit("BEQ");
    reveal_strlit("BNE");
    reveal_strlit("BGT");
    reveal_strlit("BLT");
    reveal_strlit("AND");
    reveal_strlit("ORR");
    reveal_strlit("EOR");
    reveal_strlit("MVN");
    reveal_strlit("LSL");
    reveal_strlit("LSR");
    reveal_strlit("PRINT");
    reveal_strlit("INPUT");
    reveal_strlit("HALT");
    assert(name_key("NOP"@) == (3int, 'N', 'O', 'P'));
    assert(name_key("LDR"@) == (3int, 'L', 'D', 'R'));
    assert(name_key("STR"@) == (3int, 'S', 'T', 'R'));
    assert(name_key("ADD"@) == (3int, 'A', 'D', 'D'));
    assert(name_key("SUB"@) == (3int, 'S', 'U', 'B'));
    assert(name_key("MOV"@) == (3int, 'M', 'O', 'V'));
    assert(name_key("CMP"@) == (3int, 'C', 'M', 'P'));
    assert(name_key("B"@).0 == 1);
    assert(name_key("BEQ"@) == (3int, 'B', 'E', 'Q'));
    assert(name_key("BNE"@) == (3int, 'B', 'N', 'E'));
    assert(name_key("BGT"@) == (3int, 'B', 'G', 'T'));
    assert(name_key("BLT"@) == (3int, 'B', 'L', 'T'));
    assert(name_key("AND"@) == (3int, 'A', 'N', 'D'));
    assert(name_key("ORR"@) == (3int, 'O', 'R', 'R'));
    assert(name_key("EOR"@) == (3int, 'E', 'O', 'R'));
    assert(name_key("MVN"@) == (3int, 'M', 'V', 'N'));
    assert(name_key("LSL"@) == (3int, 'L', 'S', 'L'));
    assert(name_key("LSR"@) == (3int, 'L', 'S', 'R'));
    assert(name_key("PRINT"@) == (5int, 'P', 'R', 'I'));
    assert(name_key("INPUT"@) == (5int, 'I', 'N', 'P'));
    assert(name_key("HALT"@) == (4int, 'H', 'A', 'L'));
}

impl std::str::FromStr for SourceOpcode {
    type Err = ();

    fn from_str(input: &str) -> (res: Result<SourceOpcode, ()>)
        ensures
            res == (match SourceOpcode::spec_from_name(input@) {
                Some(op) => Ok(op),
                None => Err(()),
            }),
    {
        SourceOpcode::parse(input)
    }
}

} // verus!
