//! The precompiled stream: serialization, loading, the round trip, and
//! rejection of malformed streams.

use lox_core::chunk::Chunk;
use lox_core::chunk::OpCode;
use lox_core::compiler::Compiler;
use lox_core::encode::bytes_to_chunk;
use lox_core::encode::chunk_to_bytes;
use lox_core::value::Value;
use lox_core::vm::InterpretResult;
use lox_core::vm::Vm;

fn compile(source: &str) -> Chunk {
    let mut compiler = Compiler::new(source.to_string());
    compiler
        .to_chunk(Chunk::new())
        .expect("the source must compile")
}

#[test]
fn round_trip_preserves_the_result() {
    let chunk = compile("-(2+3)*4");
    let bytes = chunk_to_bytes(&chunk);
    let reloaded = bytes_to_chunk(&bytes).expect("the stream must load");
    let mut vm = Vm::new();
    vm.chunk = Some(reloaded);
    vm.ip = 0;
    match vm.run() {
        Ok(Some(Value::Num(bits))) => assert_eq!(f64::from_bits(bits), -20.0),
        other => panic!("unexpected outcome {:?}", other),
    }
}

#[test]
fn round_trip_preserves_all_value_kinds() {
    for (source, expected) in [
        ("nil", Value::Nil),
        ("true", Value::Bool(true)),
        ("false == true", Value::Bool(false)),
        ("2.5", Value::Num(f64::to_bits(2.5))),
    ] {
        let bytes = chunk_to_bytes(&compile(source));
        let mut vm = Vm::new();
        match vm.interpret_op_code(bytes) {
            Ok(Some(v)) => assert_eq!(v, expected, "for source {:?}", source),
            other => panic!("unexpected outcome {:?} for {:?}", other, source),
        }
    }
}

#[test]
fn constants_are_inlined_with_their_operands() {
    // One constant: opcode, tag, eight bytes; then the return opcode.
    let chunk = compile("7");
    let bytes = chunk_to_bytes(&chunk);
    assert_eq!(bytes.len(), 1 + 1 + 8 + 1);
    assert_eq!(bytes[0], 1); // the constant-load opcode
    assert_eq!(bytes[1], 2); // the number tag
    assert_eq!(&bytes[2..10], &f64::to_bits(7.0).to_le_bytes());
    assert_eq!(bytes[10], 0); // the return opcode
}

#[test]
fn loading_rebuilds_the_pool() {
    let chunk = compile("1 + 2");
    let reloaded = bytes_to_chunk(&chunk_to_bytes(&chunk)).unwrap();
    assert_eq!(reloaded.constants.len(), 2);
    assert_eq!(reloaded.code, chunk.code);
}

#[test]
fn truncated_stream_is_rejected() {
    // A constant-load opcode with a number tag but only four payload bytes.
    let bytes = vec![1u8, 2, 0, 0, 0, 0];
    assert!(bytes_to_chunk(&bytes).is_err());
}

#[test]
fn bad_tag_is_rejected() {
    let bytes = vec![1u8, 9, 0];
    assert!(bytes_to_chunk(&bytes).is_err());
}

#[test]
fn unknown_opcode_in_stream_is_rejected() {
    let mut vm = Vm::new();
    let r = vm.interpret_op_code(vec![99u8]);
    assert_eq!(r, Err(InterpretResult::InterpretRuntimeError));
    assert!(!vm.diagnostics.is_empty());
}

#[test]
fn zero_operand_instructions_serialize_bare() {
    let mut chunk = Chunk::new();
    chunk.write_instruction(OpCode::OpNil, 1);
    chunk.write_instruction(OpCode::OpNot, 1);
    chunk.write_instruction(OpCode::OpReturn, 1);
    let bytes = chunk_to_bytes(&chunk);
    assert_eq!(bytes, vec![7u8, 10, 0]);
    let reloaded = bytes_to_chunk(&bytes).unwrap();
    let mut vm = Vm::new();
    vm.chunk = Some(reloaded);
    vm.ip = 0;
    // NIL then NOT leaves true on the stack.
    assert_eq!(vm.run(), Ok(Some(Value::Bool(true))));
}
