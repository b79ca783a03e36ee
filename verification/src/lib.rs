//! An assembler and interpreter for the AQA A-Level assembly language.
//!
//! Source text is turned into tokens by [`tokenizer`], the tokens are checked
//! and loaded into a 256 byte memory image by [`parser`], and the image is
//! executed by [`interpreter`]. [`safety`] shows that a program produced this
//! way never makes the interpreter abort, and [`semantics`] states what each
//! instruction does in terms of numbers and bits.

pub mod text;
pub mod style;
pub mod source_opcode;
pub mod runtime_opcode;
pub mod operand;
pub mod signature;
pub mod combinations;
pub mod interpreter;
pub mod token;
pub mod tokenizer_error;
pub mod tokenizer;
pub mod parser_error;
pub mod parser;
pub mod safety;
pub mod semantics;
