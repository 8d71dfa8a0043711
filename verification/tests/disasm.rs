//! The disassembler: one line per instruction, offsets that advance, and
//! the full-chunk dump.

use lox_core::chunk::Chunk;
use lox_core::compiler::Compiler;

fn compile(source: &str) -> Chunk {
    let mut compiler = Compiler::new(source.to_string());
    compiler
        .to_chunk(Chunk::new())
        .expect("the source must compile")
}

#[test]
fn one_plus_two_disassembles_in_order() {
    let chunk = compile("1 + 2");
    let mut offset = 0;
    let mut mnemonics: Vec<String> = Vec::new();
    let mut offsets: Vec<usize> = Vec::new();
    while offset < chunk.code.len() {
        offsets.push(offset);
        let (text, next) = chunk
            .dissasemble_instruction(offset)
            .expect("a compiled chunk must disassemble");
        assert!(next > offset, "offsets must advance");
        mnemonics.push(text);
        offset = next;
    }
    assert_eq!(mnemonics.len(), 4);
    assert!(mnemonics[0].contains("OP_CONSTANT"));
    assert!(mnemonics[0].contains("'1'"));
    assert!(mnemonics[1].contains("OP_CONSTANT"));
    assert!(mnemonics[1].contains("'2'"));
    assert!(mnemonics[2].contains("OP_ADD"));
    assert!(mnemonics[3].contains("OP_RETURN"));
    // Offsets are strictly increasing, so in particular non-decreasing.
    for i in 1..offsets.len() {
        assert!(offsets[i - 1] < offsets[i]);
    }
}

#[test]
fn line_columns_pad_and_repeat() {
    let chunk = compile("1 + 2");
    let (first, _) = chunk.dissasemble_instruction(0).unwrap();
    assert!(first.starts_with("0000    1 OP_CONSTANT"));
    let (second, _) = chunk.dissasemble_instruction(2).unwrap();
    // The second instruction repeats line 1: a continuation marker.
    assert!(second.starts_with("0002    | OP_CONSTANT"));
}

#[test]
fn dump_carries_header_and_every_instruction() {
    let chunk = compile("-(2+3)*4");
    let dump = chunk.dissasemble("code").expect("dump must succeed");
    assert!(dump.starts_with("== code ==\n"));
    assert!(dump.contains("OP_NEGATE"));
    assert!(dump.contains("OP_MULTIPLY"));
    assert!(dump.contains("OP_ADD"));
    assert!(dump.ends_with("\n"));
}

#[test]
fn out_of_range_offset_is_rejected() {
    let chunk = compile("1");
    let r = chunk.dissasemble_instruction(100);
    let message = r.expect_err("an offset past the end must be rejected");
    assert!(message.starts_with("[DISSASEMBLE]: "));
    assert!(message.contains("Offset out of bounds."));
}

#[test]
fn unknown_opcode_fails_the_dump() {
    let mut chunk = Chunk::new();
    chunk.write_byte(250, 1);
    let message = chunk.dissasemble("bad").expect_err("byte 250 decodes to nothing");
    assert!(message.contains("Invalid conversion to instruction from byte: '250'"));
}
