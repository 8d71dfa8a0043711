//! Runtime faults: type errors, decode errors, and the machine's
//! reusability after a failed run.

use lox_core::chunk::Chunk;
use lox_core::chunk::OpCode;
use lox_core::value::Value;
use lox_core::vm::InterpretResult;
use lox_core::vm::Vm;

fn load(chunk: Chunk) -> Vm {
    let mut vm = Vm::new();
    vm.chunk = Some(chunk);
    vm.ip = 0;
    vm
}

#[test]
fn negate_on_boolean_is_a_runtime_error() {
    let mut chunk = Chunk::new();
    chunk.write_instruction(OpCode::OpTrue, 1);
    chunk.write_instruction(OpCode::OpNegate, 1);
    chunk.write_instruction(OpCode::OpReturn, 1);
    let mut vm = load(chunk);
    let r = vm.run();
    assert_eq!(r, Err(InterpretResult::InterpretRuntimeError));
    // The stack is reset: the machine stays usable.
    assert_eq!(vm.stack.len(), 0);
    assert_eq!(
        vm.diagnostics.last().unwrap(),
        "Operand must be number.\n[line 1] in script"
    );
    match vm.interpret_source("1+2".to_string()) {
        Ok(Some(Value::Num(bits))) => assert_eq!(f64::from_bits(bits), 3.0),
        other => panic!("the machine must still run: {:?}", other),
    }
}

#[test]
fn add_on_mixed_kinds_is_a_runtime_error() {
    let mut vm = Vm::new();
    let r = vm.interpret_source("1 + true".to_string());
    assert_eq!(r, Err(InterpretResult::InterpretRuntimeError));
    assert_eq!(vm.stack.len(), 0);
    assert_eq!(
        vm.diagnostics.last().unwrap(),
        "Operands must be numbers.\n[line 1] in script"
    );
}

#[test]
fn unknown_opcode_is_a_decode_error() {
    let mut chunk = Chunk::new();
    chunk.write_byte(99, 7);
    let mut vm = load(chunk);
    let r = vm.run();
    assert_eq!(r, Err(InterpretResult::InterpretRuntimeError));
    let diag = vm.diagnostics.last().unwrap();
    assert!(diag.starts_with(
        "[RUNTIME]: Invalid conversion to instruction from byte: '99'"
    ));
    assert!(diag.ends_with("[line 7] in script"));
}

#[test]
fn running_past_the_end_is_a_decode_error() {
    let mut chunk = Chunk::new();
    chunk.write_instruction(OpCode::OpNil, 1);
    // No return instruction: the pointer runs off the stream.
    let mut vm = load(chunk);
    let r = vm.run();
    assert_eq!(r, Err(InterpretResult::InterpretRuntimeError));
    assert_eq!(vm.stack.len(), 0);
}

#[test]
fn constant_index_outside_pool_is_a_decode_error() {
    let mut chunk = Chunk::new();
    chunk.write_instruction(OpCode::OpConstant, 1);
    chunk.write_byte(5, 1);
    let mut vm = load(chunk);
    assert_eq!(vm.run(), Err(InterpretResult::InterpretRuntimeError));
}

#[test]
fn return_on_empty_stack_reports_no_value() {
    let mut chunk = Chunk::new();
    chunk.write_instruction(OpCode::OpReturn, 1);
    let mut vm = load(chunk);
    assert_eq!(vm.run(), Ok(None));
}

#[test]
fn stack_is_last_in_first_out() {
    let mut vm = Vm::new();
    vm.push_stack(Value::Num(f64::to_bits(1.0)));
    vm.push_stack(Value::Bool(true));
    assert_eq!(vm.peek_stack(0), Some(Value::Bool(true)));
    assert_eq!(vm.peek_stack(1), Some(Value::Num(f64::to_bits(1.0))));
    assert_eq!(vm.peek_stack(2), None);
    assert_eq!(vm.pop_stack(), Some(Value::Bool(true)));
    assert_eq!(vm.pop_stack(), Some(Value::Num(f64::to_bits(1.0))));
    assert_eq!(vm.pop_stack(), None);
}

#[test]
fn values_equal_is_kind_sensitive() {
    let vm = Vm::new();
    assert!(vm.values_equal(Value::Nil, Value::Nil));
    assert!(!vm.values_equal(Value::Nil, Value::Bool(false)));
    assert!(!vm.values_equal(Value::Bool(true), Value::Num(f64::to_bits(1.0))));
    assert!(vm.values_equal(
        Value::Num(f64::to_bits(1.0)),
        Value::Num(f64::to_bits(1.0))
    ));
    // IEEE equality, not bitwise: positive and negative zero are equal,
    // and a NaN equals nothing, itself included.
    assert!(vm.values_equal(
        Value::Num(f64::to_bits(0.0)),
        Value::Num(f64::to_bits(-0.0))
    ));
    assert!(!vm.values_equal(
        Value::Num(f64::to_bits(f64::NAN)),
        Value::Num(f64::to_bits(f64::NAN))
    ));
}

#[test]
fn is_falsey_matches_truthiness() {
    let vm = Vm::new();
    assert!(vm.is_falsey(&Value::Nil));
    assert!(vm.is_falsey(&Value::Bool(false)));
    assert!(!vm.is_falsey(&Value::Bool(true)));
    assert!(!vm.is_falsey(&Value::Num(f64::to_bits(0.0))));
}

#[test]
fn single_stepping_matches_a_full_run() {
    // Compile "1+2" and drive the machine one instruction at a time, as an
    // execution tracer would: CONSTANT, CONSTANT, ADD, then RETURN.
    let mut compiler = lox_core::compiler::Compiler::new("1+2".to_string());
    let chunk = compiler.to_chunk(Chunk::new()).expect("the source must compile");
    let mut vm = load(chunk);
    let mut steps = 0;
    let outcome = loop {
        match vm.step() {
            Some(out) => break out,
            None => steps += 1,
        }
    };
    assert_eq!(steps, 3);
    match outcome {
        Ok(Some(Value::Num(bits))) => assert_eq!(f64::from_bits(bits), 3.0),
        other => panic!("unexpected outcome {:?}", other),
    }
}

#[test]
fn a_step_that_faults_reports_like_a_run() {
    let mut chunk = Chunk::new();
    chunk.write_instruction(OpCode::OpFalse, 2);
    chunk.write_instruction(OpCode::OpNegate, 2);
    chunk.write_instruction(OpCode::OpReturn, 2);
    let mut vm = load(chunk);
    assert_eq!(vm.step(), None); // FALSE pushes
    assert_eq!(
        vm.step(),
        Some(Err(InterpretResult::InterpretRuntimeError))
    );
    assert_eq!(vm.stack.len(), 0);
    assert_eq!(
        vm.diagnostics.last().unwrap(),
        "Operand must be number.\n[line 2] in script"
    );
}
