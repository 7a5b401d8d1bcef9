use lox::chunk::{disassemble_instruction, Chunk, Disassembled, InterpretResult, OpCode, ValueArray, VM};

#[test]
fn opcode_bytes_round_trip() {
    assert_eq!(OpCode::from_u8(0), Some(OpCode::OpConstant));
    assert_eq!(OpCode::from_u8(1), Some(OpCode::OpReturn));
    assert_eq!(OpCode::from_u8(2), None);
    assert_eq!(OpCode::from_u8(255), None);
    assert_eq!(OpCode::from_u8(OpCode::OpReturn.to_u8()), Some(OpCode::OpReturn));
    assert_eq!(OpCode::from_u8(OpCode::OpConstant.to_u8()), Some(OpCode::OpConstant));
}

#[test]
fn chunk_collects_code_and_constants() {
    let mut chunk: Chunk<f64> = Chunk::new();
    let a = chunk.add_constant(1.5);
    let b = chunk.add_constant(2.5);
    assert_eq!((a, b), (0, 1));
    chunk.write_opcode(OpCode::OpConstant, 1);
    chunk.write_byte(b as u8, 1);
    chunk.write_opcode(OpCode::OpReturn, 1);
    assert_eq!(chunk.code(), &[0, 1, 1]);
    assert_eq!(chunk.constants(), &[1.5, 2.5]);
}

#[test]
fn value_array_keeps_order() {
    let mut values = ValueArray::new();
    values.write(3);
    values.write(4);
    assert_eq!(values.values(), &[3, 4]);
}

#[test]
fn vm_returns_the_last_constant() {
    let mut chunk: Chunk<f64> = Chunk::new();
    let c = chunk.add_constant(1.2);
    chunk.write_opcode(OpCode::OpConstant, 123);
    chunk.write_byte(c as u8, 123);
    chunk.write_opcode(OpCode::OpReturn, 123);
    let mut vm = VM::new();
    assert_eq!(vm.interpret(&chunk), (InterpretResult::InterpretOk, Some(1.2)));
}

#[test]
fn vm_errors() {
    let mut chunk: Chunk<f64> = Chunk::new();
    chunk.write_opcode(OpCode::OpReturn, 1);
    let mut vm = VM::new();
    assert_eq!(vm.interpret(&chunk), (InterpretResult::InterpretRuntimeError, None));
    let mut chunk: Chunk<f64> = Chunk::new();
    chunk.write_byte(9, 1);
    let mut vm = VM::new();
    assert_eq!(vm.interpret(&chunk), (InterpretResult::InterpretRuntimeError, None));
}

#[test]
fn disassembling_steps_over_operands() {
    let mut chunk: Chunk<f64> = Chunk::new();
    chunk.add_constant(7.0);
    chunk.write_opcode(OpCode::OpConstant, 1);
    chunk.write_byte(0, 1);
    chunk.write_opcode(OpCode::OpReturn, 1);
    chunk.write_byte(42, 1);
    assert_eq!(disassemble_instruction(&chunk, 0), (Disassembled::Constant(0), 2));
    assert_eq!(disassemble_instruction(&chunk, 2), (Disassembled::Simple, 3));
    assert_eq!(disassemble_instruction(&chunk, 3), (Disassembled::Unknown(42), 4));
}
