use std::io::Cursor;
use inline_colorization::{color_red, color_reset, style_bold, style_reset};

use aqa_asm::interpreter::{InputTarget, Interpreter, RuntimeError, StepOutcome, REGISTER_COUNT};
use aqa_asm::runtime_opcode::RuntimeOpcode;
use aqa_asm::text::parse_input_value;

fn load_test_program(program: &[u8]) -> [u8; 256] {
let mut memory = [0; 256];
memory[..program.len()].copy_from_slice(program);
memory
}

/// Runs the machine until `HALT` or an error, taking input lines from `lines`
/// and appending each printed value, on a line of its own, to `out`.
fn run_machine(machine: &mut Interpreter, lines: &mut std::str::Lines, out: &mut Vec<u8>) -> Result<(), RuntimeError> {
    loop {
        if machine.step_aborts() {
            panic!("the interpreter aborts on this program");
        }
        match machine.step() {
            Ok(StepOutcome::Continue) => {}
            Ok(StepOutcome::Halt) => return Ok(()),
            Ok(StepOutcome::Print(v)) => out.extend_from_slice(format!("{}\n", v).as_bytes()),
            Ok(StepOutcome::Input(target)) => {
                if let InputTarget::Register(r) = target {
                    assert!(r < REGISTER_COUNT);
                }
                let value = loop {
                    let line = match lines.next() {
                        Some(line) => line,
                        None => panic!("no more input"),
                    };
                    if let Some(v) = parse_input_value(line) {
                        break v;
                    }
                };
                machine.provide_input(target, value)?;
            }
            Err(e) => return Err(e),
        }
    }
}

/// Runs the machine with no input, dropping what it prints.
fn internal_interpret(machine: &mut Interpreter) -> Result<(), RuntimeError> {
    let mut out: Vec<u8> = Vec::new();
    run_machine(machine, &mut "".lines(), &mut out)
}

/// Runs a program to its end, taking input lines from `input` and writing
/// each printed value on a line of `output`. Memory and registers are copied
/// back, whatever the outcome.
fn interpret_custom_io(
    memory: &mut [u8; 256],
    registers: &mut [u8; 13],
    program_bytes: u8,
    input: Cursor<&[u8]>,
    output: Cursor<&mut Vec<u8>>,
) -> Result<Interpreter, RuntimeError> {
    let mut machine = Interpreter::new(*memory, *registers, program_bytes);
    let text = String::from_utf8(input.into_inner().to_vec()).unwrap();
    let result = run_machine(&mut machine, &mut text.lines(), output.into_inner());
    *memory = machine.memory;
    *registers = machine.registers;
    result.map(|_| machine)
}

/// Runs a program that reads no input; what it prints is dropped.
fn interpret(memory: &mut [u8; 256], registers: &mut [u8; 13], program_bytes: u8) -> Result<Interpreter, RuntimeError> {
let mut output: Vec<u8> = Vec::new();
let empty: &[u8] = &[];
interpret_custom_io(memory, registers, program_bytes, Cursor::new(empty), Cursor::new(&mut output))
}

#[test]
fn mod_test_nop() {
    let program = [RuntimeOpcode::Nop as u8, RuntimeOpcode::Halt as u8];
    let mut memory = load_test_program(&program);
    let memory_copy = memory;
    let mut registers = [0; REGISTER_COUNT as usize];
    let registers_copy = registers;
    interpret(&mut memory, &mut registers, program.len() as u8).unwrap();
    assert_eq!(memory, memory_copy);
    assert_eq!(registers, registers_copy);
}

#[test]
fn mod_test_ldr() {
    let program = [RuntimeOpcode::Ldr as u8, 0, 0, RuntimeOpcode::Halt as u8, 5];
    let mut memory = load_test_program(&program);
    let mut registers = [0; REGISTER_COUNT as usize];
    interpret(&mut memory, &mut registers, program.len() as u8 - 1).unwrap();
    assert_eq!(registers[0], 5);
}

#[test]
fn mod_test_str() {
    let program = [RuntimeOpcode::Str as u8, 0, 0, RuntimeOpcode::Halt as u8];
    let mut memory = load_test_program(&program);
    let mut registers = [0; REGISTER_COUNT as usize];
    registers[0] = 5;
    interpret(&mut memory, &mut registers, program.len() as u8).unwrap();
    assert_eq!(memory[program.len()], 5);
}

#[test]
fn mod_test_add() {
    let program = [
        RuntimeOpcode::AddLiteral as u8,
        0,
        0,
        5,
        RuntimeOpcode::AddRegister as u8,
        1,
        1,
        0,
        RuntimeOpcode::Halt as u8,
    ];
    let mut memory = load_test_program(&program);
    let mut registers = [0; REGISTER_COUNT as usize];
    interpret(&mut memory, &mut registers, program.len() as u8).unwrap();
    assert_eq!(registers[0], 5);
    assert_eq!(registers[1], 5);
}

#[test]
fn mod_test_sub() {
    let program = [
        RuntimeOpcode::SubLiteral as u8,
        0,
        0,
        5,
        RuntimeOpcode::SubRegister as u8,
        1,
        1,
        0,
        RuntimeOpcode::Halt as u8,
    ];
    let mut memory = load_test_program(&program);
    let mut registers = [0; REGISTER_COUNT as usize];
    registers[0] = 255;
    registers[1] = 255;
    interpret(&mut memory, &mut registers, program.len() as u8).unwrap();
    assert_eq!(registers[0], 250);
    assert_eq!(registers[1], 5);
}

#[test]
fn mod_test_mov() {
    let program = [
        RuntimeOpcode::MovLiteral as u8,
        0,
        5,
        RuntimeOpcode::MovRegister as u8,
        1,
        0,
        RuntimeOpcode::Halt as u8,
    ];
    let mut memory = load_test_program(&program);
    let mut registers = [0; REGISTER_COUNT as usize];
    interpret(&mut memory, &mut registers, program.len() as u8).unwrap();
    assert_eq!(registers[0], 5);
    assert_eq!(registers[1], 5);
}

#[test]
fn mod_test_cmp_equal_numbers() {
    // Comparison of register 0 and value 0
    let program = &[
        RuntimeOpcode::CmpLiteral as u8,
        0,
        0,
        RuntimeOpcode::Halt as u8,
    ];
    let mut memory = load_test_program(program);
    let mut registers = [0; REGISTER_COUNT as usize];
    let interpreter =
        interpret(&mut memory, &mut registers, program.len() as u8).unwrap();
    assert_eq!(interpreter.comparison_result, 0);
    assert!(!interpreter.underflow);

    // Comparison of contents of register 0 and 1 (both have values of 0)
    let program = &[
        RuntimeOpcode::CmpRegister as u8,
        0,
        1,
        RuntimeOpcode::Halt as u8,
    ];
    let mut memory = load_test_program(program);
    let interpreter =
        interpret(&mut memory, &mut registers, program.len() as u8).unwrap();
    assert_eq!(interpreter.comparison_result, 0);
    assert!(!interpreter.underflow);
}

#[test]
fn mod_test_cmp_greater_than() {
    // Comparison of register 0 (value of 5) and value 0
    let program = &[
        RuntimeOpcode::CmpLiteral as u8,
        0,
        0,
        RuntimeOpcode::Halt as u8,
    ];
    let mut memory: [u8; 256] = load_test_program(program);
    let mut registers = [0; REGISTER_COUNT as usize];
    registers[0] = 5;
    let interpreter =
        interpret(&mut memory, &mut registers, program.len() as u8).unwrap();
    assert_eq!(interpreter.comparison_result, 5);
    assert!(!interpreter.underflow);

    let program = &[
        RuntimeOpcode::CmpRegister as u8,
        0,
        1,
        RuntimeOpcode::Halt as u8,
    ];
    let mut memory = load_test_program(program);
    let interpreter =
        interpret(&mut memory, &mut registers, program.len() as u8).unwrap();
    assert_eq!(interpreter.comparison_result, 5);
    assert!(!interpreter.underflow);
}

#[test]
fn mod_test_cmp_less_than() {
    // Comparison of register 0 (value of 0) and value 5
    let program = &[
        RuntimeOpcode::CmpLiteral as u8,
        0,
        5,
        RuntimeOpcode::Halt as u8,
    ];
    let mut memory: [u8; 256] = load_test_program(program);
    let mut registers = [0; REGISTER_COUNT as usize];
    registers[1] = 5;
    let interpreter =
        interpret(&mut memory, &mut registers, program.len() as u8).unwrap();
    assert_eq!(interpreter.comparison_result, 251);
    assert!(interpreter.underflow);

    // Comaparison of register 0 (value of 0) and register 1 (value of 5)
    let program = &[
        RuntimeOpcode::CmpRegister as u8,
        0,
        1,
        RuntimeOpcode::Halt as u8,
    ];
    let mut memory = load_test_program(program);
    let interpreter =
        interpret(&mut memory, &mut registers, program.len() as u8).unwrap();
    assert_eq!(interpreter.comparison_result, 251);
    assert!(interpreter.underflow);
}

#[test]
fn mod_test_unconditional_branch() {
    let program = [
        RuntimeOpcode::B as u8,
        3,
        RuntimeOpcode::Halt as u8,
        RuntimeOpcode::Halt as u8,
    ];
    let mut memory = load_test_program(&program);
    let mut registers = [0; REGISTER_COUNT as usize];
    let interpreter =
        interpret(&mut memory, &mut registers, program.len() as u8).unwrap();
    assert_eq!(interpreter.program_counter, 4);
}

#[test]
fn mod_test_beq() {
    // Successful BEQ
    let program = [
        RuntimeOpcode::Beq as u8,
        3,
        RuntimeOpcode::Halt as u8,
        RuntimeOpcode::Halt as u8,
    ];
    let mut memory = load_test_program(&program);
    let mut registers = [0; REGISTER_COUNT as usize];
    let mut interpreter = Interpreter {
        comparison_result: 0,
        program_bytes: program.len() as u8,
        memory: memory,
        registers: registers,
        program_counter: 0,
        underflow: false,
    };
    internal_interpret(&mut interpreter).unwrap();
    assert_eq!(interpreter.program_counter, 4);

    // Unsuccessful BEQ
    interpreter.comparison_result = 1;
    interpreter.program_counter = 0;
    internal_interpret(&mut interpreter).unwrap();
    assert_eq!(interpreter.program_counter, 3);
}

#[test]
fn mod_test_bne() {
    // Successful BNE
    let program = [
        RuntimeOpcode::Bne as u8,
        3,
        RuntimeOpcode::Halt as u8,
        RuntimeOpcode::Halt as u8,
    ];
    let mut memory = load_test_program(&program);
    let mut registers = [0; REGISTER_COUNT as usize];
    let mut interpreter = Interpreter {
        comparison_result: 1,
        program_bytes: program.len() as u8,
        memory: memory,
        registers: registers,
        program_counter: 0,
        underflow: false,
    };
    internal_interpret(&mut interpreter).unwrap();
    assert_eq!(interpreter.program_counter, 4);

    // Unsuccessful BGT
    interpreter.comparison_result = 0;
    interpreter.program_counter = 0;
    internal_interpret(&mut interpreter).unwrap();
    assert_eq!(interpreter.program_counter, 3);
}

#[test]
fn mod_test_bgt() {
    // Successful BGT - num is greater
    let program = [
        RuntimeOpcode::Bgt as u8,
        3,
        RuntimeOpcode::Halt as u8,
        RuntimeOpcode::Halt as u8,
    ];
    let mut memory = load_test_program(&program);
    let mut registers = [0; REGISTER_COUNT as usize];
    let mut interpreter = Interpreter {
        comparison_result: 1,
        program_bytes: program.len() as u8,
        memory: memory,
        registers: registers,
        program_counter: 0,
        underflow: false,
    };
    internal_interpret(&mut interpreter).unwrap();
    assert_eq!(interpreter.program_counter, 4);

    // Unsuccessful BGT - nums are equal
    interpreter.comparison_result = 0;
    interpreter.program_counter = 0;
    internal_interpret(&mut interpreter).unwrap();
    assert_eq!(interpreter.program_counter, 3);

    // Unsuccesfull BGT - nums are less
    interpreter.comparison_result = 10;
    interpreter.underflow = true;
    interpreter.program_counter = 0;
    internal_interpret(&mut interpreter).unwrap();
    assert_eq!(interpreter.program_counter, 3);
}

#[test]
fn mod_test_blt() {
    // Successful BLT - num is greater
    let program = [
        RuntimeOpcode::Blt as u8,
        3,
        RuntimeOpcode::Halt as u8,
        RuntimeOpcode::Halt as u8,
    ];
    let mut memory = load_test_program(&program);
    let mut registers = [0; REGISTER_COUNT as usize];
    let mut interpreter = Interpreter {
        comparison_result: 1,
        program_bytes: program.len() as u8,
        memory: memory,
        registers: registers,
        program_counter: 0,
        underflow: true,
    };
    internal_interpret(&mut interpreter).unwrap();
    assert_eq!(interpreter.program_counter, 4);

    // Unsuccessful BLT - nums are equal
    interpreter.comparison_result = 0;
    interpreter.underflow = false;
    interpreter.program_counter = 0;
    internal_interpret(&mut interpreter).unwrap();
    assert_eq!(interpreter.program_counter, 3);

    // Unsuccesfull BLT - nums are less
    interpreter.comparison_result = 10;
    interpreter.program_counter = 0;
    internal_interpret(&mut interpreter).unwrap();
    assert_eq!(interpreter.program_counter, 3);
}

#[test]
fn mod_test_and() {
    let program = [
        RuntimeOpcode::AndLiteral as u8,
        0,
        0,
        0b11110000,
        RuntimeOpcode::AndRegister as u8,
        1,
        1,
        2,
        RuntimeOpcode::Halt as u8,
    ];
    let mut memory = load_test_program(&program);
    let mut registers = [0; REGISTER_COUNT as usize];
    registers[0] = 0b10101010;
    registers[1] = 0b10101010;
    registers[2] = 0b00001111;
    interpret(&mut memory, &mut registers, program.len() as u8).unwrap();
    assert_eq!(registers[0], 0b10100000);
    assert_eq!(registers[1], 0b00001010);
}

#[test]
fn mod_test_orr() {
    let program = [
        RuntimeOpcode::OrrLiteral as u8,
        0,
        0,
        0b00001111,
        RuntimeOpcode::OrrRegister as u8,
        1,
        1,
        0,
        RuntimeOpcode::Halt as u8,
    ];
    let mut memory = load_test_program(&program);
    let mut registers = [0; REGISTER_COUNT as usize];
    registers[0] = 0b11001010;
    interpret(&mut memory, &mut registers, program.len() as u8).unwrap();
    assert_eq!(registers[0], 0b11001111);
    assert_eq!(registers[1], 0b11001111);
}

#[test]
fn mod_test_eor() {
    let program = [
        RuntimeOpcode::EorLiteral as u8,
        0,
        0,
        0b00001111,
        RuntimeOpcode::EorRegister as u8,
        1,
        1,
        1,
        RuntimeOpcode::Halt as u8,
    ];
    let mut memory = load_test_program(&program);
    let mut registers = [0; REGISTER_COUNT as usize];
    registers[0] = 0b11001010;
    registers[1] = 0b11111111;
    interpret(&mut memory, &mut registers, program.len() as u8).unwrap();
    assert_eq!(registers[0], 0b11000101);
    assert_eq!(registers[1], 0b00000000);
}

#[test]
fn mod_test_mvn() {
    let program = [
        RuntimeOpcode::MvnLiteral as u8,
        0,
        0b00001111,
        RuntimeOpcode::MvnRegister as u8,
        1,
        0,
        RuntimeOpcode::Halt as u8,
    ];
    let mut memory = load_test_program(&program);
    let mut registers = [0; REGISTER_COUNT as usize];
    registers[0] = 0b11111111;
    registers[1] = 0b11111111;
    interpret(&mut memory, &mut registers, program.len() as u8).unwrap();
    assert_eq!(registers[0], 0b11110000);
    assert_eq!(registers[1], 0b00001111);
}

#[test]
fn mod_test_lsl() {
    let program = [
        RuntimeOpcode::LslLiteral as u8,
        0,
        0,
        4,
        RuntimeOpcode::LslRegister as u8,
        1,
        1,
        2,
        RuntimeOpcode::Halt as u8,
    ];
    let mut memory = load_test_program(&program);
    let mut registers = [0; REGISTER_COUNT as usize];
    registers[0] = 0b11000011;
    registers[1] = 0b11000011;
    registers[2] = 2;
    interpret(&mut memory, &mut registers, program.len() as u8).unwrap();
    assert_eq!(registers[0], 0b00110000);
    assert_eq!(registers[1], 0b00001100);
}

#[test]
fn mod_test_lsr() {
    let program = [
        RuntimeOpcode::LsrLiteral as u8,
        0,
        0,
        4,
        RuntimeOpcode::LsrRegister as u8,
        1,
        1,
        2,
        RuntimeOpcode::Halt as u8,
    ];
    let mut memory = load_test_program(&program);
    let mut registers = [0; REGISTER_COUNT as usize];
    registers[0] = 0b11000011;
    registers[1] = 0b11000011;
    registers[2] = 2;
    interpret(&mut memory, &mut registers, program.len() as u8).unwrap();
    assert_eq!(registers[0], 0b00001100);
    assert_eq!(registers[1], 0b00110000);
}

#[test]
fn test_interpret_print_register() {
    // Setup
    let program = [
        RuntimeOpcode::PrintRegister as u8,
        0,
        RuntimeOpcode::Halt as u8,
    ];
    let mut memory = load_test_program(&program);
    let mut registers = [0; REGISTER_COUNT as usize];
    registers[0] = 42;

    // Create a mock output writer
    let inputs: &[u8] = &[];
    let mut output: Vec<u8> = Vec::new();

    let reader = Cursor::new(inputs as &[u8]);
    let writer = Cursor::new(&mut output);

    interpret_custom_io(
        &mut memory,
        &mut registers,
        program.len() as u8,
        reader,
        writer,
    )
    .unwrap();

    // Check
    let output_str = String::from_utf8(output).unwrap();
    assert_eq!(output_str.trim(), "42");
}

#[test]
fn test_print_memory() {
    // Setup
    let program = [
        RuntimeOpcode::PrintMemory as u8,
        0,
        RuntimeOpcode::Halt as u8,
    ];
    let mut memory = load_test_program(&program);
    memory[program.len()] = 42;
    let mut registers = [0; REGISTER_COUNT as usize];

    // Create a mock output writer
    let inputs: &[u8] = &[];
    let mut output: Vec<u8> = Vec::new();

    let reader = Cursor::new(inputs as &[u8]);
    let writer = Cursor::new(&mut output);

    interpret_custom_io(
        &mut memory,
        &mut registers,
        program.len() as u8,
        reader,
        writer,
    )
    .unwrap();

    // Check
    let output_str = String::from_utf8(output).unwrap();
    assert_eq!(output_str.trim(), "42");
}

#[test]
fn test_interpret_input_register() {
    // Setup
    let program = [
        RuntimeOpcode::InputRegister as u8,
        0,
        RuntimeOpcode::Halt as u8,
    ];
    let mut memory = load_test_program(&program);
    let mut registers = [0; REGISTER_COUNT as usize];

    let input = String::from("99");
    let inputs = input.as_bytes();
    let mut output: Vec<u8> = Vec::new();

    let reader = Cursor::new(inputs as &[u8]);
    let writer = Cursor::new(&mut output);

    // Execute the interpreter
    interpret_custom_io(
        &mut memory,
        &mut registers,
        program.len() as u8,
        reader,
        writer,
    )
    .unwrap();

    // Check that the memory has the expected value
    assert_eq!(registers[0], 99); // Ensure memory at address 0 has the input value
}

#[test]
fn test_interpret_input_memory() {
    // Setup
    let program = [
        RuntimeOpcode::InputMemory as u8,
        0,
        RuntimeOpcode::Halt as u8,
    ];
    let mut memory = load_test_program(&program);
    let mut registers = [0; REGISTER_COUNT as usize];

    let input = String::from("150");
    let inputs = input.as_bytes();
    let mut output: Vec<u8> = Vec::new();

    let reader = Cursor::new(inputs as &[u8]);
    let writer = Cursor::new(&mut output);

    // Execute the interpreter
    interpret_custom_io(
        &mut memory,
        &mut registers,
        program.len() as u8,
        reader,
        writer,
    )
    .unwrap();

    // Check that the memory has the expected value
    assert_eq!(memory[program.len()], 150); // Ensure memory at address 0 has the input value
}

#[test]
fn mod_test_halt() {
    let program = [RuntimeOpcode::Halt as u8];
    let mut memory = load_test_program(&program);
    let memory_copy = memory;
    let mut registers = [0; REGISTER_COUNT as usize];
    let registers_copy = registers;
    let interpreter =
        interpret(&mut memory, &mut registers, program.len() as u8).unwrap();
    assert_eq!(interpreter.memory, memory_copy);
    assert_eq!(interpreter.registers, registers_copy);
    assert_eq!(interpreter.program_counter, 1);
}

#[test]
fn mod_test_out_of_bounds_read() {
    let program = [RuntimeOpcode::Ldr as u8, 0, 253];
    let mut memory = load_test_program(&program);
    let mut registers = [0; REGISTER_COUNT as usize];
    assert_eq!(
        interpret(&mut memory, &mut registers, program.len() as u8).unwrap_err(),
        RuntimeError::OutOfBoundsRead(253)
    );
}

#[test]
fn mod_test_out_of_bounds_write() {
    let program = [RuntimeOpcode::Str as u8, 0, 253];
    let mut memory = load_test_program(&program);
    let mut registers = [0; REGISTER_COUNT as usize];
    assert_eq!(
        interpret(&mut memory, &mut registers, program.len() as u8).unwrap_err(),
        RuntimeError::OutOfBoundsWrite(253)
    );
}

#[test]
fn mod_test_read_past_of_memory() {
    let program = [];
    let mut memory = load_test_program(&program);
    let mut registers = [0; REGISTER_COUNT as usize];
    assert_eq!(
        interpret(&mut memory, &mut registers, program.len() as u8).unwrap_err(),
        RuntimeError::ReadPastMemory
    );
}

#[test]
fn test_read_past_max_memory() {
    let program = [RuntimeOpcode::Nop as u8; 256];
    let mut memory = load_test_program(&program);
    let mut registers = [0; REGISTER_COUNT as usize];
    assert_eq!(
        interpret(&mut memory, &mut registers, program.len() as u8).unwrap_err(),
        RuntimeError::ReadPastMemory
    );
}

#[test]
fn interpreter_test_nop() {
    let program = [RuntimeOpcode::Nop as u8, RuntimeOpcode::Halt as u8];
    let mut memory = load_test_program(&program);
    let memory_copy = memory.clone();
    let mut registers = [0; REGISTER_COUNT as usize];
    let registers_copy = registers.clone();
    interpret(&mut memory, &mut registers, program.len() as u8).unwrap();
    assert_eq!(memory, memory_copy);
    assert_eq!(registers, registers_copy);
}

#[test]
fn interpreter_test_ldr() {
    let program = [RuntimeOpcode::Ldr as u8, 0, 0, RuntimeOpcode::Halt as u8, 5];
    let mut memory = load_test_program(&program);
    let mut registers = [0; REGISTER_COUNT as usize];
    interpret(&mut memory, &mut registers, program.len() as u8 - 1).unwrap();
    assert_eq!(registers[0], 5);
}

#[test]
fn interpreter_test_str() {
    let program = [RuntimeOpcode::Str as u8, 0, 0, RuntimeOpcode::Halt as u8];
    let mut memory = load_test_program(&program);
    let mut registers = [0; REGISTER_COUNT as usize];
    registers[0] = 5;
    interpret(&mut memory, &mut registers, program.len() as u8).unwrap();
    assert_eq!(memory[program.len()], 5);
}

#[test]
fn interpreter_test_add() {
    let program = [
        RuntimeOpcode::AddLiteral as u8,
        0,
        0,
        5,
        RuntimeOpcode::AddRegister as u8,
        1,
        1,
        0,
        RuntimeOpcode::Halt as u8,
    ];
    let mut memory = load_test_program(&program);
    let mut registers = [0; REGISTER_COUNT as usize];
    interpret(&mut memory, &mut registers, program.len() as u8).unwrap();
    assert_eq!(registers[0], 5);
    assert_eq!(registers[1], 5);
}

#[test]
fn interpreter_test_sub() {
    let program = [
        RuntimeOpcode::SubLiteral as u8,
        0,
        0,
        5,
        RuntimeOpcode::SubRegister as u8,
        1,
        1,
        0,
        RuntimeOpcode::Halt as u8,
    ];
    let mut memory = load_test_program(&program);
    let mut registers = [0; REGISTER_COUNT as usize];
    registers[0] = 255;
    registers[1] = 255;
    interpret(&mut memory, &mut registers, program.len() as u8).unwrap();
    assert_eq!(registers[0], 250);
    assert_eq!(registers[1], 5);
}

#[test]
fn interpreter_test_mov() {
    let program = [
        RuntimeOpcode::MovLiteral as u8,
        0,
        5,
        RuntimeOpcode::MovRegister as u8,
        1,
        0,
        RuntimeOpcode::Halt as u8,
    ];
    let mut memory = load_test_program(&program);
    let mut registers = [0; REGISTER_COUNT as usize];
    interpret(&mut memory, &mut registers, program.len() as u8).unwrap();
    assert_eq!(registers[0], 5);
    assert_eq!(registers[1], 5);
}

#[test]
fn interpreter_test_cmp_equal_numbers() {
    // Comparison of register 0 and value 0
    let program = &[
        RuntimeOpcode::CmpLiteral as u8,
        0,
        0,
        RuntimeOpcode::Halt as u8,
    ];
    let mut memory = load_test_program(program);
    let mut registers = [0; REGISTER_COUNT as usize];
    let interpreter =
        interpret(&mut memory, &mut registers, program.len() as u8).unwrap();
    assert_eq!(interpreter.comparison_result, 0);
    assert_eq!(interpreter.underflow, false);

    // Comparison of contents of register 0 and 1 (both have values of 0)
    let program = &[
        RuntimeOpcode::CmpRegister as u8,
        0,
        1,
        RuntimeOpcode::Halt as u8,
    ];
    let mut memory = load_test_program(program);
    let interpreter =
        interpret(&mut memory, &mut registers, program.len() as u8).unwrap();
    assert_eq!(interpreter.comparison_result, 0);
    assert_eq!(interpreter.underflow, false);
}

#[test]
fn interpreter_test_cmp_greater_than() {
    // Comparison of register 0 (value of 5) and value 0
    let program = &[
        RuntimeOpcode::CmpLiteral as u8,
        0,
        0,
        RuntimeOpcode::Halt as u8,
    ];
    let mut memory: [u8; 256] = load_test_program(program);
    let mut registers = [0; REGISTER_COUNT as usize];
    registers[0] = 5;
    let interpreter =
        interpret(&mut memory, &mut registers, program.len() as u8).unwrap();
    assert_eq!(interpreter.comparison_result, 5);
    assert_eq!(interpreter.underflow, false);

    let program = &[
        RuntimeOpcode::CmpRegister as u8,
        0,
        1,
        RuntimeOpcode::Halt as u8,
    ];
    let mut memory = load_test_program(program);
    let interpreter =
        interpret(&mut memory, &mut registers, program.len() as u8).unwrap();
    assert_eq!(interpreter.comparison_result, 5);
    assert_eq!(interpreter.underflow, false);
}

#[test]
fn interpreter_test_cmp_less_than() {
    // Comparison of register 0 (value of 0) and value 5
    let program = &[
        RuntimeOpcode::CmpLiteral as u8,
        0,
        5,
        RuntimeOpcode::Halt as u8,
    ];
    let mut memory: [u8; 256] = load_test_program(program);
    let mut registers = [0; REGISTER_COUNT as usize];
    registers[1] = 5;
    let interpreter =
        interpret(&mut memory, &mut registers, program.len() as u8).unwrap();
    assert_eq!(interpreter.comparison_result, 251);
    assert_eq!(interpreter.underflow, true);

    // Comaparison of register 0 (value of 0) and register 1 (value of 5)
    let program = &[
        RuntimeOpcode::CmpRegister as u8,
        0,
        1,
        RuntimeOpcode::Halt as u8,
    ];
    let mut memory = load_test_program(program);
    let interpreter =
        interpret(&mut memory, &mut registers, program.len() as u8).unwrap();
    assert_eq!(interpreter.comparison_result, 251);
    assert_eq!(interpreter.underflow, true);
}

#[test]
fn interpreter_test_unconditional_branch() {
    let program = [
        RuntimeOpcode::B as u8,
        3,
        RuntimeOpcode::Halt as u8,
        RuntimeOpcode::Halt as u8,
    ];
    let mut memory = load_test_program(&program);
    let mut registers = [0; REGISTER_COUNT as usize];
    let interpreter =
        interpret(&mut memory, &mut registers, program.len() as u8).unwrap();
    assert_eq!(interpreter.program_counter, 4);
}

#[test]
fn interpreter_test_beq() {
    // Successful BEQ
    let program = [
        RuntimeOpcode::Beq as u8,
        3,
        RuntimeOpcode::Halt as u8,
        RuntimeOpcode::Halt as u8,
    ];
    let mut memory = load_test_program(&program);
    let mut registers = [0; REGISTER_COUNT as usize];
    let mut interpreter = Interpreter {
        comparison_result: 0,
        program_bytes: program.len() as u8,
        memory: memory,
        registers: registers,
        program_counter: 0,
        underflow: false,
    };
    internal_interpret(&mut interpreter).unwrap();
    assert_eq!(interpreter.program_counter, 4);

    // Unsuccessful BEQ
    interpreter.comparison_result = 1;
    interpreter.program_counter = 0;
    internal_interpret(&mut interpreter).unwrap();
    assert_eq!(interpreter.program_counter, 3);
}

#[test]
fn interpreter_test_bne() {
    // Successful BNE
    let program = [
        RuntimeOpcode::Bne as u8,
        3,
        RuntimeOpcode::Halt as u8,
        RuntimeOpcode::Halt as u8,
    ];
    let mut memory = load_test_program(&program);
    let mut registers = [0; REGISTER_COUNT as usize];
    let mut interpreter = Interpreter {
        comparison_result: 1,
        program_bytes: program.len() as u8,
        memory: memory,
        registers: registers,
        program_counter: 0,
        underflow: false,
    };
    internal_interpret(&mut interpreter).unwrap();
    assert_eq!(interpreter.program_counter, 4);

    // Unsuccessful BGT
    interpreter.comparison_result = 0;
    interpreter.program_counter = 0;
    internal_interpret(&mut interpreter).unwrap();
    assert_eq!(interpreter.program_counter, 3);
}

#[test]
fn interpreter_test_bgt() {
    // Successful BGT - num is greater
    let program = [
        RuntimeOpcode::Bgt as u8,
        3,
        RuntimeOpcode::Halt as u8,
        RuntimeOpcode::Halt as u8,
    ];
    let mut memory = load_test_program(&program);
    let mut registers = [0; REGISTER_COUNT as usize];
    let mut interpreter = Interpreter {
        comparison_result: 1,
        program_bytes: program.len() as u8,
        memory: memory,
        registers: registers,
        program_counter: 0,
        underflow: false,
    };
    internal_interpret(&mut interpreter).unwrap();
    assert_eq!(interpreter.program_counter, 4);

    // Unsuccessful BGT - nums are equal
    interpreter.comparison_result = 0;
    interpreter.program_counter = 0;
    internal_interpret(&mut interpreter).unwrap();
    assert_eq!(interpreter.program_counter, 3);

    // Unsuccesfull BGT - nums are less
    interpreter.comparison_result = 10;
    interpreter.underflow = true;
    interpreter.program_counter = 0;
    internal_interpret(&mut interpreter).unwrap();
    assert_eq!(interpreter.program_counter, 3);
}

#[test]
fn interpreter_test_blt() {
    // Successful BLT - num is greater
    let program = [
        RuntimeOpcode::Blt as u8,
        3,
        RuntimeOpcode::Halt as u8,
        RuntimeOpcode::Halt as u8,
    ];
    let mut memory = load_test_program(&program);
    let mut registers = [0; REGISTER_COUNT as usize];
    let mut interpreter = Interpreter {
        comparison_result: 1,
        program_bytes: program.len() as u8,
        memory: memory,
        registers: registers,
        program_counter: 0,
        underflow: true,
    };
    internal_interpret(&mut interpreter).unwrap();
    assert_eq!(interpreter.program_counter, 4);

    // Unsuccessful BLT - nums are equal
    interpreter.comparison_result = 0;
    interpreter.underflow = false;
    interpreter.program_counter = 0;
    internal_interpret(&mut interpreter).unwrap();
    assert_eq!(interpreter.program_counter, 3);

    // Unsuccesfull BLT - nums are less
    interpreter.comparison_result = 10;
    interpreter.program_counter = 0;
    internal_interpret(&mut interpreter).unwrap();
    assert_eq!(interpreter.program_counter, 3);
}

#[test]
fn interpreter_test_and() {
    let program = [
        RuntimeOpcode::AndLiteral as u8,
        0,
        0,
        0b11110000,
        RuntimeOpcode::AndRegister as u8,
        1,
        1,
        2,
        RuntimeOpcode::Halt as u8,
    ];
    let mut memory = load_test_program(&program);
    let mut registers = [0; REGISTER_COUNT as usize];
    registers[0] = 0b10101010;
    registers[1] = 0b10101010;
    registers[2] = 0b00001111;
    interpret(&mut memory, &mut registers, program.len() as u8).unwrap();
    assert_eq!(registers[0], 0b10100000);
    assert_eq!(registers[1], 0b00001010);
}

#[test]
fn interpreter_test_orr() {
    let program = [
        RuntimeOpcode::OrrLiteral as u8,
        0,
        0,
        0b00001111,
        RuntimeOpcode::OrrRegister as u8,
        1,
        1,
        0,
        RuntimeOpcode::Halt as u8,
    ];
    let mut memory = load_test_program(&program);
    let mut registers = [0; REGISTER_COUNT as usize];
    registers[0] = 0b11001010;
    interpret(&mut memory, &mut registers, program.len() as u8).unwrap();
    assert_eq!(registers[0], 0b11001111);
    assert_eq!(registers[1], 0b11001111);
}

#[test]
fn interpreter_test_eor() {
    let program = [
        RuntimeOpcode::EorLiteral as u8,
        0,
        0,
        0b00001111,
        RuntimeOpcode::EorRegister as u8,
        1,
        1,
        1,
        RuntimeOpcode::Halt as u8,
    ];
    let mut memory = load_test_program(&program);
    let mut registers = [0; REGISTER_COUNT as usize];
    registers[0] = 0b11001010;
    registers[1] = 0b11111111;
    interpret(&mut memory, &mut registers, program.len() as u8).unwrap();
    assert_eq!(registers[0], 0b11000101);
    assert_eq!(registers[1], 0b00000000);
}

#[test]
fn interpreter_test_mvn() {
    let program = [
        RuntimeOpcode::MvnLiteral as u8,
        0,
        0b00001111,
        RuntimeOpcode::MvnRegister as u8,
        1,
        0,
        RuntimeOpcode::Halt as u8,
    ];
    let mut memory = load_test_program(&program);
    let mut registers = [0; REGISTER_COUNT as usize];
    registers[0] = 0b11111111;
    registers[1] = 0b11111111;
    interpret(&mut memory, &mut registers, program.len() as u8).unwrap();
    assert_eq!(registers[0], 0b11110000);
    assert_eq!(registers[1], 0b00001111);
}

#[test]
fn interpreter_test_lsl() {
    let program = [
        RuntimeOpcode::LslLiteral as u8,
        0,
        0,
        4,
        RuntimeOpcode::LslRegister as u8,
        1,
        1,
        2,
        RuntimeOpcode::Halt as u8,
    ];
    let mut memory = load_test_program(&program);
    let mut registers = [0; REGISTER_COUNT as usize];
    registers[0] = 0b11000011;
    registers[1] = 0b11000011;
    registers[2] = 2;
    interpret(&mut memory, &mut registers, program.len() as u8).unwrap();
    assert_eq!(registers[0], 0b00110000);
    assert_eq!(registers[1], 0b00001100);
}

#[test]
fn interpreter_test_lsr() {
    let program = [
        RuntimeOpcode::LsrLiteral as u8,
        0,
        0,
        4,
        RuntimeOpcode::LsrRegister as u8,
        1,
        1,
        2,
        RuntimeOpcode::Halt as u8,
    ];
    let mut memory = load_test_program(&program);
    let mut registers = [0; REGISTER_COUNT as usize];
    registers[0] = 0b11000011;
    registers[1] = 0b11000011;
    registers[2] = 2;
    interpret(&mut memory, &mut registers, program.len() as u8).unwrap();
    assert_eq!(registers[0], 0b00001100);
    assert_eq!(registers[1], 0b00110000);
}

#[test]
fn interpreter_test_halt() {
    let program = [RuntimeOpcode::Halt as u8];
    let mut memory = load_test_program(&program);
    let memory_copy = memory.clone();
    let mut registers = [0; REGISTER_COUNT as usize];
    let registers_copy = registers.clone();
    let interpreter =
        interpret(&mut memory, &mut registers, program.len() as u8).unwrap();
    assert_eq!(interpreter.memory, memory_copy);
    assert_eq!(interpreter.registers, registers_copy);
    assert_eq!(interpreter.program_counter, 1);
}

#[test]
fn interpreter_test_out_of_bounds_read() {
    let program = [RuntimeOpcode::Ldr as u8, 0, 253];
    let mut memory = load_test_program(&program);
    let mut registers = [0; REGISTER_COUNT as usize];
    assert!(matches!(
        interpret(&mut memory, &mut registers, program.len() as u8),
        Err(RuntimeError::OutOfBoundsRead(..))
    ));
}

#[test]
fn interpreter_test_out_of_bounds_write() {
    let program = [RuntimeOpcode::Str as u8, 0, 253];
    let mut memory = load_test_program(&program);
    let mut registers = [0; REGISTER_COUNT as usize];
    assert!(matches!(
        interpret(&mut memory, &mut registers, program.len() as u8),
        Err(RuntimeError::OutOfBoundsWrite(..))
    ));
}

#[test]
fn interpreter_test_read_past_of_memory() {
    let program = [];
    let mut memory = load_test_program(&program);
    let mut registers = [0; REGISTER_COUNT as usize];
    assert!(matches!(
        interpret(&mut memory, &mut registers, program.len() as u8),
        Err(RuntimeError::ReadPastMemory)
    ))
}

#[test]
fn test_display_runtime_error() {
    for (input, expected) in [
        (RuntimeError::ReadPastMemory, "Runtime Error :: Program read past of available memory (perhaps you forgot the 'HALT' instruction?)"),
        (RuntimeError::OutOfBoundsRead(12), "Runtime Error :: Attempt to read out of bounds memory location 12"),
        (RuntimeError::OutOfBoundsWrite(127), "Runtime Error :: Attempt to write to out of bounds memory location 127")
    ] {
        assert_eq!(input.to_display_string(), format!("{color_red}{style_bold}{expected}{color_reset}{style_reset}"));
    }
}
