//! Unit-level checks: the value model, opcode and precedence decoding,
//! the text helpers, and the diagnostic prefixes.

use lox_core::chunk::byte_to_op;
use lox_core::chunk::op_to_byte;
use lox_core::chunk::OpCode;
use lox_core::common::dissasemble_error;
use lox_core::common::repl_error;
use lox_core::common::runtime_error;
use lox_core::compiler::byte_to_prec;
use lox_core::compiler::Precedence;
use lox_core::text::i32_dec;
use lox_core::text::pad_left;
use lox_core::text::pad_right;
use lox_core::text::u64_dec;
use lox_core::value::Value;
use lox_core::value::ValueType;

#[test]
fn value_accessors_follow_the_tag() {
    let n = Value::from_number(f64::to_bits(2.5));
    assert!(n.is_number());
    assert!(!n.is_bool());
    assert!(!n.is_nil());
    assert_eq!(n.get_type(), ValueType::ValNumber);
    assert_eq!(f64::from_bits(n.as_number()), 2.5);

    let b = Value::from_bool(true);
    assert!(b.is_bool());
    assert_eq!(b.get_type(), ValueType::ValBool);
    assert!(b.as_bool());

    let nil = Value::from_nil();
    assert!(nil.is_nil());
    assert_eq!(nil.get_type(), ValueType::ValNil);
}

#[test]
fn value_text_renders_each_kind() {
    assert_eq!(Value::Nil.text(), "nil");
    assert_eq!(Value::Bool(true).text(), "true");
    assert_eq!(Value::Bool(false).text(), "false");
    assert_eq!(Value::Num(f64::to_bits(20.0)).text(), "20");
    assert_eq!(Value::Num(f64::to_bits(2.5)).text(), "2.5");
}

#[test]
fn opcode_bytes_round_trip() {
    let ops = [
        OpCode::OpReturn,
        OpCode::OpConstant,
        OpCode::OpNegate,
        OpCode::OpAdd,
        OpCode::OpSubtract,
        OpCode::OpMultiply,
        OpCode::OpDivide,
        OpCode::OpNil,
        OpCode::OpTrue,
        OpCode::OpFalse,
        OpCode::OpNot,
        OpCode::OpEqual,
        OpCode::OpGreater,
        OpCode::OpLess,
    ];
    for (i, op) in ops.iter().enumerate() {
        assert_eq!(op_to_byte(*op) as usize, i);
        assert_eq!(byte_to_op(i as u8).unwrap(), *op);
    }
}

#[test]
fn unknown_opcode_byte_is_reported() {
    let message = byte_to_op(14).expect_err("byte 14 encodes no instruction");
    assert_eq!(
        message,
        "[RUNTIME]: Invalid conversion to instruction from byte: '14'\nInstruction doesn't exist."
    );
}

#[test]
fn precedence_bytes_decode_in_order() {
    assert_eq!(byte_to_prec(0).unwrap(), Precedence::PrecNone);
    assert_eq!(byte_to_prec(6).unwrap(), Precedence::PrecTerm);
    assert_eq!(byte_to_prec(7).unwrap(), Precedence::PrecFactor);
    assert_eq!(byte_to_prec(10).unwrap(), Precedence::PrecPrimary);
    let message = byte_to_prec(11).expect_err("rank 11 is off the scale");
    assert_eq!(
        message,
        "Invalid conversion to precedence from byte: '11'\nPrecedence doesn't exist."
    );
}

#[test]
fn decimal_rendering() {
    assert_eq!(u64_dec(0), "0");
    assert_eq!(u64_dec(7), "7");
    assert_eq!(u64_dec(12345), "12345");
    assert_eq!(i32_dec(-20), "-20");
    assert_eq!(i32_dec(0), "0");
    assert_eq!(i32_dec(i32::MIN), "-2147483648");
}

#[test]
fn padding() {
    assert_eq!(pad_left("7", 4, "0"), "0007");
    assert_eq!(pad_left("12345", 4, "0"), "12345");
    assert_eq!(pad_left("3", 4, " "), "   3");
    assert_eq!(pad_right("OP_ADD", 16), "OP_ADD          ");
}

#[test]
fn diagnostic_prefixes() {
    assert_eq!(dissasemble_error("x".to_string()), "[DISSASEMBLE]: x");
    assert_eq!(runtime_error("x".to_string()), "[RUNTIME]: x");
    assert_eq!(repl_error("x".to_string()), "[REPL]: x");
}
