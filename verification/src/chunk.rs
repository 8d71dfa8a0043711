//! The bytecode container: an instruction stream, a parallel source-line
//! table, and a constant pool, together with the instruction set and a pure
//! disassembler that renders one instruction per line.

use vstd::prelude::*;
use vstd::string::*;

use crate::common::dissasemble_error;
use crate::common::runtime_error;
use crate::text::dec_str;
use crate::text::dec_str_signed;
use crate::text::padded_left;
use crate::text::padded_right;
use crate::text::i32_dec;
use crate::text::pad_left;
use crate::text::pad_right;
use crate::text::u64_dec;
use crate::value::Value;
use crate::value::value_text;

verus! {

/// One operation of the virtual machine. Every opcode takes zero trailing
/// operand bytes except `OpConstant`, which takes one: an index into the
/// chunk's constant pool.
#[derive(PartialEq, Eq, Structural, Debug, Clone, Copy)]
pub enum OpCode {
    OpReturn,
    OpConstant,
    OpNegate,
    OpAdd,
    OpSubtract,
    OpMultiply,
    OpDivide,
    OpNil,
    OpTrue,
    OpFalse,
    OpNot,
    OpEqual,
    OpGreater,
    OpLess,
}

/// The byte that encodes an opcode.
pub open spec fn op_byte(op: OpCode) -> u8 {
    match op {
        OpCode::OpReturn => 0,
        OpCode::OpConstant => 1,
        OpCode::OpNegate => 2,
        OpCode::OpAdd => 3,
        OpCode::OpSubtract => 4,
        OpCode::OpMultiply => 5,
        OpCode::OpDivide => 6,
        OpCode::OpNil => 7,
        OpCode::OpTrue => 8,
        OpCode::OpFalse => 9,
        OpCode::OpNot => 10,
        OpCode::OpEqual => 11,
        OpCode::OpGreater => 12,
        OpCode::OpLess => 13,
    }
}

/// The opcode a byte encodes, if any.
pub open spec fn byte_op(byte: u8) -> Option<OpCode> {
    if byte == 0 {
        Some(OpCode::OpReturn)
    } else if byte == 1 {
        Some(OpCode::OpConstant)
    } else if byte == 2 {
        Some(OpCode::OpNegate)
    } else if byte == 3 {
        Some(OpCode::OpAdd)
    } else if byte == 4 {
        Some(OpCode::OpSubtract)
    } else if byte == 5 {
        Some(OpCode::OpMultiply)
    } else if byte == 6 {
        Some(OpCode::OpDivide)
    } else if byte == 7 {
        Some(OpCode::OpNil)
    } else if byte == 8 {
        Some(OpCode::OpTrue)
    } else if byte == 9 {
        Some(OpCode::OpFalse)
    } else if byte == 10 {
        Some(OpCode::OpNot)
    } else if byte == 11 {
        Some(OpCode::OpEqual)
    } else if byte == 12 {
        Some(OpCode::OpGreater)
    } else if byte == 13 {
        Some(OpCode::OpLess)
    } else {
        None
    }
}

/// Encoding then decoding is the identity, and decoding pins the byte down.
pub proof fn lemma_op_byte_roundtrip(op: OpCode, byte: u8)
    ensures
        byte_op(op_byte(op)) == Some(op),
        byte_op(byte) == Some(op) ==> op_byte(op) == byte,
{
}

/// The diagnostic for a byte that encodes no instruction.
pub open spec fn bad_byte_msg(byte: u8) -> Seq<char> {
    "[RUNTIME]: "@ + ("Invalid conversion to instruction from byte: '"@ + dec_str(
        byte as nat,
    ) + "'\nInstruction doesn't exist."@)
}

/// Decodes one opcode byte.
pub fn byte_to_op(byte: u8) -> (r: Result<OpCode, String>)
    ensures
        match r {
            Ok(op) => byte_op(byte) == Some(op),
            Err(e) => byte_op(byte) == None::<OpCode> && e@ == bad_byte_msg(byte),
        },
{
    match byte {
        0 => Ok(OpCode::OpReturn),
        1 => Ok(OpCode::OpConstant),
        2 => Ok(OpCode::OpNegate),
        3 => Ok(OpCode::OpAdd),
        4 => Ok(OpCode::OpSubtract),
        5 => Ok(OpCode::OpMultiply),
        6 => Ok(OpCode::OpDivide),
        7 => Ok(OpCode::OpNil),
        8 => Ok(OpCode::OpTrue),
        9 => Ok(OpCode::OpFalse),
        10 => Ok(OpCode::OpNot),
        11 => Ok(OpCode::OpEqual),
        12 => Ok(OpCode::OpGreater),
        13 => Ok(OpCode::OpLess),
        _ => {
            let mut msg = String::from_str("Invalid conversion to instruction from byte: '");
            msg.append(u64_dec(byte as u64).as_str());
            msg.append("'\nInstruction doesn't exist.");
            Err(runtime_error(msg))
        },
    }
}

/// Encodes an opcode as its byte.
pub fn op_to_byte(op: OpCode) -> (r: u8)
    ensures
        r == op_byte(op),
{
    match op {
        OpCode::OpReturn => 0,
        OpCode::OpConstant => 1,
        OpCode::OpNegate => 2,
        OpCode::OpAdd => 3,
        OpCode::OpSubtract => 4,
        OpCode::OpMultiply => 5,
        OpCode::OpDivide => 6,
        OpCode::OpNil => 7,
        OpCode::OpTrue => 8,
        OpCode::OpFalse => 9,
        OpCode::OpNot => 10,
        OpCode::OpEqual => 11,
        OpCode::OpGreater => 12,
        OpCode::OpLess => 13,
    }
}

/// A unit of compiled bytecode: instruction bytes, a source-line table
/// parallel to them, and the constant pool the instructions index into.
#[derive(Debug)]
pub struct Chunk {
    pub code: Vec<u8>,
    pub constants: Vec<Value>,
    pub lines: Vec<i32>,
}

/// From boundary `i` on, every byte of `code` decodes: each opcode is known
/// and each `OpConstant` has its operand byte, indexing inside a pool of
/// `nconsts` entries.
pub open spec fn code_wf_from(code: Seq<u8>, nconsts: int, i: int) -> bool
    decreases code.len() - i,
{
    if i < 0 || i >= code.len() {
        true
    } else {
        match byte_op(code[i]) {
            None => false,
            Some(op) => {
                if op == OpCode::OpConstant {
                    if i + 1 < code.len() && (code[i + 1] as int) < nconsts {
                        code_wf_from(code, nconsts, i + 2)
                    } else {
                        false
                    }
                } else {
                    code_wf_from(code, nconsts, i + 1)
                }
            },
        }
    }
}

/// The whole instruction stream decodes against a pool of `nconsts` entries.
pub open spec fn code_wf(code: Seq<u8>, nconsts: int) -> bool {
    code_wf_from(code, nconsts, 0)
}

/// From boundary `i` on, execution reaches an `OpReturn` before running off
/// the end of the stream.
pub open spec fn code_halts_from(code: Seq<u8>, i: int) -> bool
    decreases code.len() - i,
{
    if i < 0 || i >= code.len() {
        false
    } else {
        match byte_op(code[i]) {
            None => false,
            Some(op) => {
                if op == OpCode::OpReturn {
                    true
                } else if op == OpCode::OpConstant {
                    i + 1 < code.len() && code_halts_from(code, i + 2)
                } else {
                    code_halts_from(code, i + 1)
                }
            },
        }
    }
}

/// Appending a zero-operand instruction keeps the stream well formed.
pub proof fn lemma_code_wf_append_simple(code: Seq<u8>, nconsts: int, byte: u8, i: int)
    requires
        code_wf_from(code, nconsts, i),
        i <= code.len(),
        byte_op(byte) is Some,
        byte_op(byte) != Some(OpCode::OpConstant),
    ensures
        code_wf_from(code.push(byte), nconsts, i),
    decreases code.len() - i,
{
    if i < 0 {
    } else if i == code.len() {
        assert(code.push(byte)[i] == byte);
        assert(code_wf_from(code.push(byte), nconsts, i + 1));
    } else {
        assert(code.push(byte)[i] == code[i]);
        match byte_op(code[i]) {
            None => {},
            Some(op) => {
                if op == OpCode::OpConstant {
                    assert(code.push(byte)[i + 1] == code[i + 1]);
                    lemma_code_wf_append_simple(code, nconsts, byte, i + 2);
                } else {
                    lemma_code_wf_append_simple(code, nconsts, byte, i + 1);
                }
            },
        }
    }
}

/// Appending a constant-load instruction with an in-range pool index keeps
/// the stream well formed.
pub proof fn lemma_code_wf_append_constant(code: Seq<u8>, nconsts: int, idx: u8, i: int)
    requires
        code_wf_from(code, nconsts, i),
        i <= code.len(),
        (idx as int) < nconsts,
    ensures
        code_wf_from(code.push(op_byte(OpCode::OpConstant)).push(idx), nconsts, i),
    decreases code.len() - i,
{
    let grown = code.push(op_byte(OpCode::OpConstant)).push(idx);
    if i < 0 {
    } else if i == code.len() {
        assert(grown[i] == op_byte(OpCode::OpConstant));
        assert(grown[i + 1] == idx);
        assert(code_wf_from(grown, nconsts, i + 2));
    } else {
        assert(grown[i] == code[i]);
        match byte_op(code[i]) {
            None => {},
            Some(op) => {
                if op == OpCode::OpConstant {
                    assert(grown[i + 1] == code[i + 1]);
                    lemma_code_wf_append_constant(code, nconsts, idx, i + 2);
                } else {
                    lemma_code_wf_append_constant(code, nconsts, idx, i + 1);
                }
            },
        }
    }
}

/// A stream well formed against a pool stays well formed when the pool
/// grows.
pub proof fn lemma_code_wf_nconsts_mono(code: Seq<u8>, nconsts: int, more: int, i: int)
    requires
        code_wf_from(code, nconsts, i),
        nconsts <= more,
    ensures
        code_wf_from(code, more, i),
    decreases code.len() - i,
{
    if 0 <= i && i < code.len() {
        match byte_op(code[i]) {
            None => {},
            Some(op) => {
                if op == OpCode::OpConstant {
                    lemma_code_wf_nconsts_mono(code, nconsts, more, i + 2);
                } else {
                    lemma_code_wf_nconsts_mono(code, nconsts, more, i + 1);
                }
            },
        }
    }
}

/// Appending a return instruction to a well-formed stream makes execution
/// from every boundary halt.
pub proof fn lemma_code_halts_after_return(code: Seq<u8>, nconsts: int, i: int)
    requires
        code_wf_from(code, nconsts, i),
        0 <= i <= code.len(),
    ensures
        code_halts_from(code.push(op_byte(OpCode::OpReturn)), i),
    decreases code.len() - i,
{
    let grown = code.push(op_byte(OpCode::OpReturn));
    if i == code.len() {
        assert(grown[i] == op_byte(OpCode::OpReturn));
        assert(code_halts_from(grown, i));
    } else {
        assert(grown[i] == code[i]);
        match byte_op(code[i]) {
            None => {
                assert(code_halts_from(grown, i));
            },
            Some(op) => {
                if op == OpCode::OpConstant {
                    lemma_code_halts_after_return(code, nconsts, i + 2);
                    assert(code_halts_from(grown, i));
                } else if op != OpCode::OpReturn {
                    lemma_code_halts_after_return(code, nconsts, i + 1);
                    assert(code_halts_from(grown, i));
                } else {
                    assert(code_halts_from(grown, i));
                }
            },
        }
    }
}

/// Whether a byte encodes a unary stack transform: one operand consumed,
/// one result pushed.
pub open spec fn is_unary_byte(byte: u8) -> bool {
    byte == op_byte(OpCode::OpNegate) || byte == op_byte(OpCode::OpNot)
}

/// Whether a byte encodes a binary operation: two operands consumed, one
/// result pushed.
pub open spec fn is_binary_byte(byte: u8) -> bool {
    byte == op_byte(OpCode::OpAdd) || byte == op_byte(OpCode::OpSubtract) || byte == op_byte(
        OpCode::OpMultiply,
    ) || byte == op_byte(OpCode::OpDivide) || byte == op_byte(OpCode::OpEqual) || byte == op_byte(
        OpCode::OpGreater,
    ) || byte == op_byte(OpCode::OpLess)
}

/// Whether a byte encodes an instruction that pushes a literal.
pub open spec fn is_literal_byte(byte: u8) -> bool {
    byte == op_byte(OpCode::OpNil) || byte == op_byte(OpCode::OpTrue) || byte == op_byte(
        OpCode::OpFalse,
    )
}

/// The stack depth left by the straight-line segment `[i, j)` when started
/// at depth `d`: literals and constants raise it, unary transforms need one
/// value, binary operations need two and lower it. `None` when the segment
/// would underflow a stack of depth `d`, or is not straight-line code — an
/// opcode outside these groups (a return included), a constant whose
/// operand is missing or out of the pool, or a boundary that splits an
/// instruction.
pub open spec fn seg_depth(code: Seq<u8>, nconsts: int, i: int, j: int, d: int) -> Option<int>
    decreases j - i,
{
    if i == j {
        Some(d)
    } else if i < 0 || j < i || j > code.len() {
        None
    } else if is_literal_byte(code[i]) {
        seg_depth(code, nconsts, i + 1, j, d + 1)
    } else if code[i] == op_byte(OpCode::OpConstant) {
        if i + 1 < j && (code[i + 1] as int) < nconsts {
            seg_depth(code, nconsts, i + 2, j, d + 1)
        } else {
            None
        }
    } else if is_unary_byte(code[i]) {
        if d >= 1 {
            seg_depth(code, nconsts, i + 1, j, d)
        } else {
            None
        }
    } else if is_binary_byte(code[i]) {
        if d >= 2 {
            seg_depth(code, nconsts, i + 1, j, d - 1)
        } else {
            None
        }
    } else {
        None
    }
}

/// One literal-pushing instruction raises the depth by one.
pub proof fn lemma_seg_push_literal(code: Seq<u8>, nconsts: int, m: int, d: int)
    requires
        0 <= m,
        m + 1 <= code.len(),
        is_literal_byte(code[m]),
    ensures
        seg_depth(code, nconsts, m, m + 1, d) == Some(d + 1),
{
    assert(seg_depth(code, nconsts, m + 1, m + 1, d + 1) == Some(d + 1));
}

/// One constant-loading instruction with an in-pool operand raises the
/// depth by one.
pub proof fn lemma_seg_push_constant(code: Seq<u8>, nconsts: int, m: int, d: int)
    requires
        0 <= m,
        m + 2 <= code.len(),
        code[m] == op_byte(OpCode::OpConstant),
        (code[m + 1] as int) < nconsts,
    ensures
        seg_depth(code, nconsts, m, m + 2, d) == Some(d + 1),
{
    assert(seg_depth(code, nconsts, m + 2, m + 2, d + 1) == Some(d + 1));
}

/// One unary transform keeps the depth, given one operand.
pub proof fn lemma_seg_unary(code: Seq<u8>, nconsts: int, m: int, d: int)
    requires
        0 <= m,
        m + 1 <= code.len(),
        is_unary_byte(code[m]),
        d >= 1,
    ensures
        seg_depth(code, nconsts, m, m + 1, d) == Some(d),
{
    assert(seg_depth(code, nconsts, m + 1, m + 1, d) == Some(d));
}

/// One binary operation lowers the depth by one, given two operands.
pub proof fn lemma_seg_binary(code: Seq<u8>, nconsts: int, m: int, d: int)
    requires
        0 <= m,
        m + 1 <= code.len(),
        is_binary_byte(code[m]),
        d >= 2,
    ensures
        seg_depth(code, nconsts, m, m + 1, d) == Some(d - 1),
{
    assert(seg_depth(code, nconsts, m + 1, m + 1, d - 1) == Some(d - 1));
}

/// Emission only ever appends: the old code is a prefix of the new, and
/// the pool only grows.
pub open spec fn chunk_extended(a: Chunk, b: Chunk) -> bool {
    &&& a.code@.len() <= b.code@.len()
    &&& (forall|t: int|
        #![trigger a.code@[t]]
        #![trigger b.code@[t]]
        0 <= t < a.code@.len() ==> a.code@[t] == b.code@[t])
    &&& a.constants@.len() <= b.constants@.len()
}

/// The range `[start, end)` holds one whole expression's code: from any
/// starting depth it raises the stack by exactly one, touching nothing
/// beneath.
pub open spec fn expr_segment(c: Chunk, start: int, end: int) -> bool {
    forall|d: int|
        0 <= d ==> #[trigger] seg_depth(c.code@, c.constants@.len() as int, start, end, d) == Some(
            d + 1,
        )
}

/// The range `[start, end)` holds one infix step — a right operand and its
/// operation: with the left operand beneath, it keeps the stack depth.
pub open spec fn infix_segment(c: Chunk, start: int, end: int) -> bool {
    forall|d: int|
        1 <= d ==> #[trigger] seg_depth(c.code@, c.constants@.len() as int, start, end, d) == Some(
            d,
        )
}

/// Segments compose: scanning on past `b` continues from the depth the
/// first part left.
pub proof fn lemma_seg_concat(code: Seq<u8>, nconsts: int, a: int, b: int, c: int, d: int, e: int)
    requires
        seg_depth(code, nconsts, a, b, d) == Some(e),
        b <= c,
    ensures
        seg_depth(code, nconsts, a, c, d) == seg_depth(code, nconsts, b, c, e),
    decreases b - a,
{
    if a == b {
    } else {
        if is_literal_byte(code[a]) {
            lemma_seg_concat(code, nconsts, a + 1, b, c, d + 1, e);
        } else if code[a] == op_byte(OpCode::OpConstant) {
            lemma_seg_concat(code, nconsts, a + 2, b, c, d + 1, e);
        } else if is_unary_byte(code[a]) {
            lemma_seg_concat(code, nconsts, a + 1, b, c, d, e);
        } else {
            lemma_seg_concat(code, nconsts, a + 1, b, c, d - 1, e);
        }
    }
}

/// A segment keeps its stack effect when the stream grows behind it and
/// the pool gains entries.
pub proof fn lemma_seg_extend(
    code: Seq<u8>,
    nconsts: int,
    grown: Seq<u8>,
    more: int,
    i: int,
    j: int,
    d: int,
)
    requires
        seg_depth(code, nconsts, i, j, d) is Some,
        nconsts <= more,
        code.len() <= grown.len(),
        forall|t: int| 0 <= t < code.len() ==> grown[t] == code[t],
    ensures
        seg_depth(grown, more, i, j, d) == seg_depth(code, nconsts, i, j, d),
    decreases j - i,
{
    if i == j {
    } else {
        assert(grown[i] == code[i]);
        if is_literal_byte(code[i]) {
            lemma_seg_extend(code, nconsts, grown, more, i + 1, j, d + 1);
        } else if code[i] == op_byte(OpCode::OpConstant) {
            assert(grown[i + 1] == code[i + 1]);
            lemma_seg_extend(code, nconsts, grown, more, i + 2, j, d + 1);
        } else if is_unary_byte(code[i]) {
            lemma_seg_extend(code, nconsts, grown, more, i + 1, j, d);
        } else {
            lemma_seg_extend(code, nconsts, grown, more, i + 1, j, d - 1);
        }
    }
}

/// The disassembly mnemonic of an opcode.
pub open spec fn mnemonic(op: OpCode) -> Seq<char> {
    match op {
        OpCode::OpReturn => "OP_RETURN"@,
        OpCode::OpConstant => "OP_CONSTANT"@,
        OpCode::OpNegate => "OP_NEGATE"@,
        OpCode::OpAdd => "OP_ADD"@,
        OpCode::OpSubtract => "OP_SUBTRACT"@,
        OpCode::OpMultiply => "OP_MULTIPLY"@,
        OpCode::OpDivide => "OP_DIVIDE"@,
        OpCode::OpNil => "OP_NIL"@,
        OpCode::OpTrue => "OP_TRUE"@,
        OpCode::OpFalse => "OP_FALSE"@,
        OpCode::OpNot => "OP_NOT"@,
        OpCode::OpEqual => "OP_EQUAL"@,
        OpCode::OpGreater => "OP_GREATER"@,
        OpCode::OpLess => "OP_LESS"@,
    }
}

/// The disassembly mnemonic as text.
pub fn mnemonic_text(op: OpCode) -> (r: &'static str)
    ensures
        r@ == mnemonic(op),
{
    match op {
        OpCode::OpReturn => "OP_RETURN",
        OpCode::OpConstant => "OP_CONSTANT",
        OpCode::OpNegate => "OP_NEGATE",
        OpCode::OpAdd => "OP_ADD",
        OpCode::OpSubtract => "OP_SUBTRACT",
        OpCode::OpMultiply => "OP_MULTIPLY",
        OpCode::OpDivide => "OP_DIVIDE",
        OpCode::OpNil => "OP_NIL",
        OpCode::OpTrue => "OP_TRUE",
        OpCode::OpFalse => "OP_FALSE",
        OpCode::OpNot => "OP_NOT",
        OpCode::OpEqual => "OP_EQUAL",
        OpCode::OpGreater => "OP_GREATER",
        OpCode::OpLess => "OP_LESS",
    }
}

/// The diagnostic for a disassembly offset past the end of the stream.
pub open spec fn oob_msg(offset: int) -> Seq<char> {
    "[DISSASEMBLE]: "@ + ("Invalid instruction found at offset: '"@ + dec_str(offset as nat)
        + "'\nOffset out of bounds."@)
}

/// The diagnostic for a constant instruction whose operand byte is missing.
pub open spec fn operand_missing_msg(offset: int) -> Seq<char> {
    "[DISSASEMBLE]: "@ + ("Invalid constant instruction at offset: '"@ + dec_str(offset as nat)
        + "'\nOperand out of bounds."@)
}

/// The diagnostic for a constant instruction whose operand indexes outside
/// the pool.
pub open spec fn constant_index_msg(offset: int) -> Seq<char> {
    "[DISSASEMBLE]: "@ + ("Invalid constant instruction at offset: '"@ + dec_str(offset as nat)
        + "'\nConstant index out of bounds."@)
}

/// The boundary of the next instruction after the one at `offset`.
pub open spec fn instr_end(c: Chunk, offset: int) -> int {
    if byte_op(c.code@[offset]) == Some(OpCode::OpConstant) {
        offset + 2
    } else {
        offset + 1
    }
}

/// The offset and line columns of a disassembly line; the line column shows
/// a continuation marker when the line repeats the previous instruction's.
pub open spec fn dis_head(c: Chunk, offset: int) -> Seq<char> {
    padded_left(dec_str(offset as nat), 4, '0') + " "@ + (if offset > 0 && c.lines@[offset]
        == c.lines@[offset - 1] {
        "   | "@
    } else {
        padded_left(dec_str_signed(c.lines@[offset] as int), 4, ' ') + " "@
    })
}

/// The rendering of the decodable instruction at `offset`.
pub open spec fn dis_line_text(c: Chunk, offset: int) -> Seq<char> {
    match byte_op(c.code@[offset]) {
        Some(OpCode::OpConstant) => dis_head(c, offset) + padded_right(
            mnemonic(OpCode::OpConstant),
            16,
        ) + " "@ + padded_left(dec_str(c.code@[offset + 1] as nat), 4, '0') + " '"@ + value_text(
            c.constants@[c.code@[offset + 1] as int],
        ) + "'"@,
        Some(op) => dis_head(c, offset) + mnemonic(op),
        None => Seq::<char>::empty(),
    }
}

/// What disassembling one instruction yields: its rendering and the next
/// boundary, or a diagnostic.
pub open spec fn dis_line(c: Chunk, offset: int) -> Result<(Seq<char>, int), Seq<char>> {
    if offset >= c.code@.len() {
        Err(oob_msg(offset))
    } else {
        match byte_op(c.code@[offset]) {
            None => Err(bad_byte_msg(c.code@[offset])),
            Some(op) => {
                if op == OpCode::OpConstant {
                    if offset + 1 >= c.code@.len() {
                        Err(operand_missing_msg(offset))
                    } else if c.constants@.len() <= c.code@[offset + 1] {
                        Err(constant_index_msg(offset))
                    } else {
                        Ok((dis_line_text(c, offset), offset + 2))
                    }
                } else {
                    Ok((dis_line_text(c, offset), offset + 1))
                }
            },
        }
    }
}

/// The full disassembly of a well-formed stream from `offset` on, one line
/// per instruction.
pub open spec fn dis_text_from(c: Chunk, offset: int) -> Seq<char>
    decreases c.code@.len() - offset,
{
    if offset < 0 || offset >= c.code@.len() {
        Seq::<char>::empty()
    } else {
        match byte_op(c.code@[offset]) {
            None => Seq::<char>::empty(),
            Some(op) => {
                if op == OpCode::OpConstant {
                    if offset + 1 < c.code@.len() {
                        dis_line_text(c, offset) + "\n"@ + dis_text_from(c, offset + 2)
                    } else {
                        Seq::<char>::empty()
                    }
                } else {
                    dis_line_text(c, offset) + "\n"@ + dis_text_from(c, offset + 1)
                }
            },
        }
    }
}

/// The diagnostic of the first instruction from `offset` on that fails to
/// decode; empty when every one decodes.
pub open spec fn dis_err_from(c: Chunk, offset: int) -> Seq<char>
    decreases c.code@.len() - offset,
{
    if offset < 0 || offset >= c.code@.len() {
        Seq::<char>::empty()
    } else {
        match byte_op(c.code@[offset]) {
            None => bad_byte_msg(c.code@[offset]),
            Some(op) => {
                if op == OpCode::OpConstant {
                    if offset + 1 >= c.code@.len() {
                        operand_missing_msg(offset)
                    } else if c.constants@.len() <= c.code@[offset + 1] {
                        constant_index_msg(offset)
                    } else {
                        dis_err_from(c, offset + 2)
                    }
                } else {
                    dis_err_from(c, offset + 1)
                }
            },
        }
    }
}

impl Chunk {
    /// The container's own invariant: the line table runs parallel to the
    /// code, and the pool never exceeds what a one-byte index can reach.
    pub open spec fn wf(self) -> bool {
        &&& self.lines@.len() == self.code@.len()
        &&& self.constants@.len() <= 256
    }

    pub fn new() -> (r: Self)
        ensures
            r.wf(),
            r.code@ == Seq::<u8>::empty(),
            r.constants@ == Seq::<Value>::empty(),
            r.lines@ == Seq::<i32>::empty(),
    {
        Self { code: Vec::new(), constants: Vec::new(), lines: Vec::new() }
    }

    /// Appends one opcode byte, tagged with its source line.
    pub fn write_instruction(&mut self, instruction: OpCode, line: i32)
        ensures
            final (self).code@ == old(self).code@.push(op_byte(instruction)),
            final (self).lines@ == old(self).lines@.push(line),
            final (self).constants@ == old(self).constants@,
            old(self).wf() ==> final (self).wf(),
    {
        self.lines.push(line);
        let byte = op_to_byte(instruction);
        self.code.push(byte);
    }

    /// Appends one raw byte (an operand), tagged with its source line.
    pub fn write_byte(&mut self, byte: u8, line: i32)
        ensures
            final (self).code@ == old(self).code@.push(byte),
            final (self).lines@ == old(self).lines@.push(line),
            final (self).constants@ == old(self).constants@,
            old(self).wf() ==> final (self).wf(),
    {
        self.lines.push(line);
        self.code.push(byte);
    }

    /// Appends a value to the constant pool and returns its one-byte index.
    /// The pool holds at most 256 entries; a caller that might exceed that
    /// checks first and reports a compile error instead.
    pub fn add_constant(&mut self, constant: Value) -> (r: u8)
        requires
            old(self).constants@.len() < 256,
        ensures
            final (self).constants@ == old(self).constants@.push(constant),
            final (self).code@ == old(self).code@,
            final (self).lines@ == old(self).lines@,
            r as int == old(self).constants@.len(),
            old(self).wf() ==> final (self).wf(),
    {
        self.constants.push(constant);
        (self.constants.len() - 1) as u8
    }

    /// Renders the offset and line columns of the instruction at `offset`.
    fn dis_head_text(&self, offset: usize) -> (r: String)
        requires
            self.wf(),
            offset < self.code@.len(),
        ensures
            r@ == dis_head(*self, offset as int),
    {
        proof {
            reveal_strlit("0");
            reveal_strlit(" ");
        }
        let mut text = pad_left(u64_dec(offset as u64).as_str(), 4, "0");
        text.append(" ");
        if offset > 0 && self.lines[offset] == self.lines[offset - 1] {
            text.append("   | ");
        } else {
            text.append(pad_left(i32_dec(self.lines[offset]).as_str(), 4, " ").as_str());
            text.append(" ");
        }
        proof {
            assert(text@ =~= dis_head(*self, offset as int));
        }
        text
    }

    /// Decodes and renders exactly one instruction, returning its text and
    /// the offset of the next instruction.
    pub fn dissasemble_instruction(&self, offset: usize) -> (r: Result<(String, usize), String>)
        requires
            self.wf(),
        ensures
            match r {
                Ok(pair) => dis_line(*self, offset as int) matches Ok(sp) && pair.0@ == sp.0
                    && pair.1 as int == sp.1 && offset < pair.1 <= self.code@.len(),
                Err(e) => dis_line(*self, offset as int) matches Err(m) && e@ == m,
            },
    {
        if offset >= self.code.len() {
            let mut msg = String::from_str("Invalid instruction found at offset: '");
            msg.append(u64_dec(offset as u64).as_str());
            msg.append("'\nOffset out of bounds.");
            return Err(dissasemble_error(msg));
        }
        let op = match byte_to_op(self.code[offset]) {
            Ok(op) => op,
            Err(e) => {
                return Err(e);
            },
        };
        if op == OpCode::OpConstant {
            if offset + 1 >= self.code.len() {
                let mut msg = String::from_str("Invalid constant instruction at offset: '");
                msg.append(u64_dec(offset as u64).as_str());
                msg.append("'\nOperand out of bounds.");
                return Err(dissasemble_error(msg));
            }
            let operand = self.code[offset + 1];
            if (operand as usize) >= self.constants.len() {
                let mut msg = String::from_str("Invalid constant instruction at offset: '");
                msg.append(u64_dec(offset as u64).as_str());
                msg.append("'\nConstant index out of bounds.");
                return Err(dissasemble_error(msg));
            }
            proof {
                reveal_strlit("0");
            }
            let mut text = self.dis_head_text(offset);
            text.append(pad_right(mnemonic_text(op), 16).as_str());
            text.append(" ");
            text.append(pad_left(u64_dec(operand as u64).as_str(), 4, "0").as_str());
            text.append(" '");
            let value = self.constants[operand as usize];
            text.append(value.text().as_str());
            text.append("'");
            proof {
                assert(text@ =~= dis_line_text(*self, offset as int));
            }
            Ok((text, offset + 2))
        } else {
            let mut text = self.dis_head_text(offset);
            text.append(mnemonic_text(op));
            proof {
                assert(text@ =~= dis_line_text(*self, offset as int));
            }
            Ok((text, offset + 1))
        }
    }

    /// Renders the whole chunk under a `== name ==` header. Succeeds exactly
    /// when the instruction stream is well formed against the pool.
    pub fn dissasemble(&self, name: &str) -> (r: Result<String, String>)
        requires
            self.wf(),
        ensures
            match r {
                Ok(s) => code_wf(self.code@, self.constants@.len() as int) && s@ == "== "@ + name@
                    + " ==\n"@ + dis_text_from(*self, 0),
                Err(e) => !code_wf(self.code@, self.constants@.len() as int) && e@ == dis_err_from(
                    *self,
                    0,
                ),
            },
    {
        let mut text = String::from_str("== ");
        text.append(name);
        text.append(" ==\n");
        let ghost header: Seq<char> = text@;
        let ghost built: Seq<char> = Seq::<char>::empty();
        let ghost n: int = self.constants@.len() as int;
        let mut offset: usize = 0;
        while offset < self.code.len()
            invariant
                self.wf(),
                offset <= self.code@.len(),
                n == self.constants@.len() as int,
                header == "== "@ + name@ + " ==\n"@,
                text@ == header + built,
                code_wf(self.code@, n) <==> code_wf_from(self.code@, n, offset as int),
                code_wf_from(self.code@, n, offset as int) ==> built + dis_text_from(
                    *self,
                    offset as int,
                ) == dis_text_from(*self, 0),
                dis_err_from(*self, offset as int) == dis_err_from(*self, 0),
            decreases self.code@.len() - offset,
        {
            let ghost o = offset as int;
            match self.dissasemble_instruction(offset) {
                Ok(pair) => {
                    let (line, next) = pair;
                    proof {
                        assert(code_wf_from(self.code@, n, o) <==> code_wf_from(
                            self.code@,
                            n,
                            next as int,
                        ));
                        assert(code_wf_from(self.code@, n, o) ==> dis_text_from(*self, o)
                            == dis_line_text(*self, o) + "\n"@ + dis_text_from(*self, next as int));
                        assert(dis_err_from(*self, o) == dis_err_from(*self, next as int));
                    }
                    text.append(line.as_str());
                    proof {
                        reveal_strlit("\n");
                    }
                    text.append("\n");
                    proof {
                        built = built + line@ + "\n"@;
                        assert(text@ =~= header + built);
                        if code_wf_from(self.code@, n, next as int) {
                            assert(built + dis_text_from(*self, next as int) =~= dis_text_from(
                                *self,
                                0,
                            ));
                        }
                    }
                    offset = next;
                },
                Err(e) => {
                    proof {
                        assert(!code_wf_from(self.code@, n, o));
                        assert(e@ == dis_err_from(*self, o));
                    }
                    return Err(e);
                },
            }
        }
        proof {
            assert(dis_text_from(*self, offset as int) == Seq::<char>::empty());
            assert(built + dis_text_from(*self, offset as int) =~= built);
            assert(text@ =~= "== "@ + name@ + " ==\n"@ + dis_text_from(*self, 0));
        }
        Ok(text)
    }
}

} // verus!
