# aqa_asm

An assembler and interpreter for the AQA A-Level assembly language, written in
Verus: source text is split into tokens, the tokens are checked and loaded into
a 256-byte memory image, and the image is run one instruction at a time.

Layout:

- `src/tokenizer.rs`, `src/token.rs`, `src/tokenizer_error.rs`: the lexical
  rules as spec functions over the characters of the input, and the tokenizer
  proved against them.
- `src/parser.rs`, `src/parser_error.rs`: the grammar and the loader, with the
  byte count of a loaded program tied to the tokenizer's count.
- `src/signature.rs`, `src/combinations.rs`, `src/operand.rs`,
  `src/source_opcode.rs`, `src/runtime_opcode.rs`: the instruction set: which
  operand kinds each mnemonic takes and the opcode byte each combination selects.
- `src/interpreter.rs`: the machine state and one execution step, as a spec
  function and as proved code; printing and reading are left to the caller.
- `src/safety.rs`: the shape of a loaded program, and the proof that a program
  that the tokenizer and parser produced never makes the interpreter abort.
- `src/text.rs`, `src/style.rs`: characters, numbers and message styling.
- `app/`: the command line program, file reading and the input/output loop.
- `tests/`: example-based tests.
