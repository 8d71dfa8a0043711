//! The compiler's error reporting: syntax failures, the diagnostic
//! format, and the constant-pool limit.

use lox_core::chunk::Chunk;
use lox_core::compiler::Compiler;
use lox_core::vm::InterpretResult;
use lox_core::vm::Vm;

fn compile(source: &str) -> (Option<Chunk>, Vec<String>) {
    let mut compiler = Compiler::new(source.to_string());
    let chunk = compiler.to_chunk(Chunk::new());
    (chunk, compiler.diagnostics)
}

#[test]
fn missing_close_paren_is_reported() {
    let (chunk, diagnostics) = compile("(1 + 2");
    assert!(chunk.is_none());
    assert_eq!(
        diagnostics[0],
        "[Line 1] Error at end: Expect ')' after expression."
    );
}

#[test]
fn missing_operand_is_reported_at_end() {
    let (chunk, diagnostics) = compile("1 +");
    assert!(chunk.is_none());
    assert_eq!(diagnostics[0], "[Line 1] Error at end: Expect expression.");
}

#[test]
fn missing_prefix_is_reported_at_token() {
    let (chunk, diagnostics) = compile("* 2");
    assert!(chunk.is_none());
    assert_eq!(diagnostics[0], "[Line 1] Error at '2': Expect expression.");
}

#[test]
fn trailing_tokens_are_reported() {
    let (chunk, diagnostics) = compile("1 2");
    assert!(chunk.is_none());
    assert_eq!(
        diagnostics[0],
        "[Line 1] Error at '2': Expect end of expression."
    );
}

#[test]
fn unexpected_character_is_reported() {
    let (chunk, diagnostics) = compile("1 + @");
    assert!(chunk.is_none());
    assert_eq!(diagnostics[0], "[Line 1] Error: Unexpected character.");
}

#[test]
fn error_line_numbers_count_newlines() {
    let (chunk, diagnostics) = compile("(1 +\n2");
    assert!(chunk.is_none());
    assert_eq!(
        diagnostics[0],
        "[Line 2] Error at end: Expect ')' after expression."
    );
}

#[test]
fn panic_mode_suppresses_cascades() {
    let (chunk, diagnostics) = compile("* * *");
    assert!(chunk.is_none());
    assert_eq!(diagnostics.len(), 1);
}

#[test]
fn compile_failure_surfaces_through_the_vm() {
    let mut vm = Vm::new();
    let r = vm.interpret_source("(1 + 2".to_string());
    assert_eq!(r, Err(InterpretResult::InterpretCompileError));
    assert!(!vm.diagnostics.is_empty());
}

#[test]
fn pool_holds_exactly_256_constants() {
    // Constants are interned without deduplication: every numeric literal
    // takes one pool slot.
    let mut source = String::from("0");
    for i in 1..256 {
        source.push_str(&format!("+{}", i));
    }
    let (chunk, diagnostics) = compile(&source);
    assert!(diagnostics.is_empty());
    let chunk = chunk.expect("256 constants must compile");
    assert_eq!(chunk.constants.len(), 256);

    let mut vm = Vm::new();
    vm.chunk = Some(chunk);
    vm.ip = 0;
    let result = vm.run().expect("the summed chunk must run");
    match result {
        Some(lox_core::value::Value::Num(bits)) => {
            assert_eq!(f64::from_bits(bits), (0..256).sum::<i64>() as f64);
        }
        other => panic!("unexpected result {:?}", other),
    }
}

#[test]
fn pool_overflows_at_257_constants() {
    let mut source = String::from("0");
    for i in 1..257 {
        source.push_str(&format!("+{}", i));
    }
    let (chunk, diagnostics) = compile(&source);
    assert!(chunk.is_none());
    assert!(diagnostics[0].ends_with("Too many constants in one chunk."));
}
