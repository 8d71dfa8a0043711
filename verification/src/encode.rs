//! The precompiled chunk format: a self-contained byte stream that carries
//! each instruction with exactly the operands its arity declares. A
//! constant-load instruction inlines its constant at full fidelity — a tag
//! byte and, for numbers, the eight little-endian bytes of the bit
//! pattern — so reading the stream back reconstructs an equivalent
//! instruction stream and repopulates the constant pool.

use vstd::prelude::*;
use vstd::string::*;

use crate::chunk::Chunk;
use crate::chunk::OpCode;
use crate::chunk::byte_op;
use crate::chunk::byte_to_op;
use crate::chunk::op_byte;
use crate::chunk::code_wf_from;
use crate::chunk::code_wf;
use crate::chunk::lemma_code_wf_nconsts_mono;
use crate::chunk::lemma_code_wf_append_constant;
use crate::chunk::lemma_op_byte_roundtrip;
use crate::value::Value;

verus! {

/// One decoded instruction: an operation, with its constant resolved.
pub enum Instr {
    Simple(OpCode),
    Const(Value),
}

/// The little-endian bytes of a number's bit pattern.
pub open spec fn le_bytes(bits: u64) -> Seq<u8> {
    seq![
        (bits & 0xff) as u8,
        ((bits >> 8) & 0xff) as u8,
        ((bits >> 16) & 0xff) as u8,
        ((bits >> 24) & 0xff) as u8,
        ((bits >> 32) & 0xff) as u8,
        ((bits >> 40) & 0xff) as u8,
        ((bits >> 48) & 0xff) as u8,
        ((bits >> 56) & 0xff) as u8,
    ]
}

/// The bit pattern carried by eight little-endian bytes.
pub open spec fn le_val(s: Seq<u8>) -> u64
    recommends
        s.len() == 8,
{
    (s[0] as u64) | (s[1] as u64) << 8 | (s[2] as u64) << 16 | (s[3] as u64) << 24 | (
    s[4] as u64) << 32 | (s[5] as u64) << 40 | (s[6] as u64) << 48 | (s[7] as u64) << 56
}

/// Eight little-endian bytes carry the bit pattern they were made from.
pub proof fn lemma_le_roundtrip(bits: u64)
    ensures
        le_val(le_bytes(bits)) == bits,
{
    assert((((bits & 0xff) as u8) as u64) | ((((bits >> 8) & 0xff) as u8) as u64) << 8 | ((((bits
        >> 16) & 0xff) as u8) as u64) << 16 | ((((bits >> 24) & 0xff) as u8) as u64) << 24 | ((((
    bits >> 32) & 0xff) as u8) as u64) << 32 | ((((bits >> 40) & 0xff) as u8) as u64) << 40 | ((((
    bits >> 48) & 0xff) as u8) as u64) << 48 | ((((bits >> 56) & 0xff) as u8) as u64) << 56
        == bits) by (bit_vector);
}

/// The on-stream encoding of one constant value.
pub open spec fn value_bytes(v: Value) -> Seq<u8> {
    match v {
        Value::Nil => seq![0u8],
        Value::Bool(false) => seq![1u8, 0u8],
        Value::Bool(true) => seq![1u8, 1u8],
        Value::Num(bits) => seq![2u8] + le_bytes(bits),
    }
}

/// The instruction sequence a chunk's stream denotes, each constant
/// resolved through the pool; empty once the stream stops being well
/// formed.
pub open spec fn instrs_from(code: Seq<u8>, consts: Seq<Value>, i: int) -> Seq<Instr>
    decreases code.len() - i,
{
    if i < 0 || i >= code.len() {
        Seq::<Instr>::empty()
    } else {
        match byte_op(code[i]) {
            None => Seq::<Instr>::empty(),
            Some(op) => {
                if op == OpCode::OpConstant {
                    if i + 1 < code.len() && (code[i + 1] as int) < consts.len() {
                        seq![Instr::Const(consts[code[i + 1] as int])] + instrs_from(
                            code,
                            consts,
                            i + 2,
                        )
                    } else {
                        Seq::<Instr>::empty()
                    }
                } else {
                    seq![Instr::Simple(op)] + instrs_from(code, consts, i + 1)
                }
            },
        }
    }
}

/// The serialized form of a well-formed stream from boundary `i` on.
pub open spec fn chunk_bytes_from(code: Seq<u8>, consts: Seq<Value>, i: int) -> Seq<u8>
    decreases code.len() - i,
{
    if i < 0 || i >= code.len() {
        Seq::<u8>::empty()
    } else {
        match byte_op(code[i]) {
            None => Seq::<u8>::empty(),
            Some(op) => {
                if op == OpCode::OpConstant {
                    if i + 1 < code.len() && (code[i + 1] as int) < consts.len() {
                        seq![code[i]] + value_bytes(consts[code[i + 1] as int]) + chunk_bytes_from(
                            code,
                            consts,
                            i + 2,
                        )
                    } else {
                        Seq::<u8>::empty()
                    }
                } else {
                    seq![code[i]] + chunk_bytes_from(code, consts, i + 1)
                }
            },
        }
    }
}

/// Prepends an instruction to a decode result.
pub open spec fn decode_cons(x: Instr, rest: Option<Seq<Instr>>) -> Option<Seq<Instr>> {
    match rest {
        Some(r) => Some(seq![x] + r),
        None => None,
    }
}

/// Decodes a serialized stream back into its instruction sequence, or
/// nothing when the stream is malformed: an unknown opcode, a bad constant
/// tag, or a truncated constant.
pub open spec fn decode_instrs(bytes: Seq<u8>) -> Option<Seq<Instr>>
    decreases bytes.len(),
{
    if bytes.len() == 0 {
        Some(Seq::<Instr>::empty())
    } else {
        match byte_op(bytes[0]) {
            None => None,
            Some(op) => {
                if op == OpCode::OpConstant {
                    if 1 < bytes.len() && bytes[1] == 0 {
                        decode_cons(
                            Instr::Const(Value::Nil),
                            decode_instrs(bytes.subrange(2, bytes.len() as int)),
                        )
                    } else if 2 < bytes.len() && bytes[1] == 1 && bytes[2] <= 1 {
                        decode_cons(
                            Instr::Const(Value::Bool(bytes[2] == 1)),
                            decode_instrs(bytes.subrange(3, bytes.len() as int)),
                        )
                    } else if 1 < bytes.len() && bytes[1] == 2 && 10 <= bytes.len() {
                        decode_cons(
                            Instr::Const(Value::Num(le_val(bytes.subrange(2, 10)))),
                            decode_instrs(bytes.subrange(10, bytes.len() as int)),
                        )
                    } else {
                        None
                    }
                } else {
                    decode_cons(
                        Instr::Simple(op),
                        decode_instrs(bytes.subrange(1, bytes.len() as int)),
                    )
                }
            },
        }
    }
}

/// Decoding the serialized form of a well-formed stream gives back exactly
/// the instruction sequence the stream denotes.
pub proof fn lemma_decode_of_encoding(code: Seq<u8>, consts: Seq<Value>, i: int)
    requires
        code_wf_from(code, consts.len() as int, i),
        0 <= i,
    ensures
        decode_instrs(chunk_bytes_from(code, consts, i)) == Some(instrs_from(code, consts, i)),
    decreases code.len() - i,
{
    if i >= code.len() {
        assert(chunk_bytes_from(code, consts, i) == Seq::<u8>::empty());
    } else {
        match byte_op(code[i]) {
            None => {},
            Some(op) => {
                if op == OpCode::OpConstant {
                    let v = consts[code[i + 1] as int];
                    lemma_decode_of_encoding(code, consts, i + 2);
                    let rest = chunk_bytes_from(code, consts, i + 2);
                    let whole = chunk_bytes_from(code, consts, i);
                    assert(whole == seq![code[i]] + value_bytes(v) + rest);
                    assert(whole[0] == code[i]);
                    match v {
                        Value::Nil => {
                            assert(whole[1] == 0);
                            assert(whole.subrange(2, whole.len() as int) =~= rest);
                        },
                        Value::Bool(b) => {
                            assert(whole[1] == 1);
                            assert(whole[2] == (if b {
                                1u8
                            } else {
                                0u8
                            }));
                            assert(whole.subrange(3, whole.len() as int) =~= rest);
                        },
                        Value::Num(bits) => {
                            assert(whole[1] == 2);
                            assert(whole.len() >= 10);
                            assert(whole.subrange(2, 10) =~= le_bytes(bits));
                            lemma_le_roundtrip(bits);
                            assert(whole.subrange(10, whole.len() as int) =~= rest);
                        },
                    }
                    assert(decode_instrs(whole) == Some(instrs_from(code, consts, i)));
                } else {
                    lemma_decode_of_encoding(code, consts, i + 1);
                    let rest = chunk_bytes_from(code, consts, i + 1);
                    let whole = chunk_bytes_from(code, consts, i);
                    assert(whole == seq![code[i]] + rest);
                    assert(whole[0] == code[i]);
                    assert(whole.subrange(1, whole.len() as int) =~= rest);
                    assert(decode_instrs(whole) == Some(instrs_from(code, consts, i)));
                }
            },
        }
    }
}

/// Whether an instruction loads a constant.
pub open spec fn is_const_instr(x: Instr) -> bool {
    match x {
        Instr::Const(_) => true,
        Instr::Simple(_) => false,
    }
}

/// How many constants an instruction sequence loads.
pub open spec fn const_count(ins: Seq<Instr>) -> nat
    decreases ins.len(),
{
    if ins.len() == 0 {
        0
    } else {
        (if is_const_instr(ins[0]) {
            1nat
        } else {
            0nat
        }) + const_count(ins.drop_first())
    }
}

/// Constant counting distributes over concatenation.
pub proof fn lemma_const_count_append(a: Seq<Instr>, b: Seq<Instr>)
    ensures
        const_count(a + b) == const_count(a) + const_count(b),
    decreases a.len(),
{
    if a.len() == 0 {
        assert(a + b =~= b);
    } else {
        assert((a + b).drop_first() =~= a.drop_first() + b);
        assert((a + b)[0] == a[0]);
        lemma_const_count_append(a.drop_first(), b);
    }
}

/// The canonical instruction bytes of an instruction sequence, with `k`
/// constants already in the pool: constant loads index the pool in order
/// of appearance.
pub open spec fn code_of_instrs(ins: Seq<Instr>, k: int) -> Seq<u8>
    decreases ins.len(),
{
    if ins.len() == 0 {
        Seq::<u8>::empty()
    } else {
        match ins[0] {
            Instr::Simple(op) => seq![op_byte(op)] + code_of_instrs(ins.drop_first(), k),
            Instr::Const(_) => seq![op_byte(OpCode::OpConstant), k as u8] + code_of_instrs(
                ins.drop_first(),
                k + 1,
            ),
        }
    }
}

/// The canonical constant pool of an instruction sequence: its constants
/// in order of appearance.
pub open spec fn consts_of_instrs(ins: Seq<Instr>) -> Seq<Value>
    decreases ins.len(),
{
    if ins.len() == 0 {
        Seq::<Value>::empty()
    } else {
        match ins[0] {
            Instr::Const(v) => seq![v] + consts_of_instrs(ins.drop_first()),
            Instr::Simple(_) => consts_of_instrs(ins.drop_first()),
        }
    }
}

/// Canonical code distributes over concatenation, the pool count carrying
/// across.
pub proof fn lemma_code_of_append(a: Seq<Instr>, b: Seq<Instr>, k: int)
    ensures
        code_of_instrs(a + b, k) == code_of_instrs(a, k) + code_of_instrs(
            b,
            k + const_count(a),
        ),
    decreases a.len(),
{
    if a.len() == 0 {
        assert(a + b =~= b);
        assert(code_of_instrs(a, k) + code_of_instrs(b, k + const_count(a)) =~= code_of_instrs(
            b,
            k,
        ));
    } else {
        assert((a + b).drop_first() =~= a.drop_first() + b);
        assert((a + b)[0] == a[0]);
        lemma_code_of_append(a.drop_first(), b, if is_const_instr(a[0]) {
            k + 1
        } else {
            k
        });
        assert(const_count(a) == (if is_const_instr(a[0]) {
            1int
        } else {
            0int
        }) + const_count(a.drop_first()));
        assert(code_of_instrs(a + b, k) =~= code_of_instrs(a, k) + code_of_instrs(
            b,
            k + const_count(a),
        ));
    }
}

/// The canonical pool distributes over concatenation.
pub proof fn lemma_consts_of_append(a: Seq<Instr>, b: Seq<Instr>)
    ensures
        consts_of_instrs(a + b) == consts_of_instrs(a) + consts_of_instrs(b),
    decreases a.len(),
{
    if a.len() == 0 {
        assert(a + b =~= b);
        assert(consts_of_instrs(a) + consts_of_instrs(b) =~= consts_of_instrs(b));
    } else {
        assert((a + b).drop_first() =~= a.drop_first() + b);
        assert((a + b)[0] == a[0]);
        lemma_consts_of_append(a.drop_first(), b);
        assert(consts_of_instrs(a + b) =~= consts_of_instrs(a) + consts_of_instrs(b));
    }
}

/// Appending a zero-operand instruction appends its decoded form.
pub proof fn lemma_instrs_append_simple(code: Seq<u8>, consts: Seq<Value>, b: u8, op: OpCode, i: int)
    requires
        code_wf_from(code, consts.len() as int, i),
        0 <= i <= code.len(),
        byte_op(b) == Some(op),
        op != OpCode::OpConstant,
    ensures
        instrs_from(code.push(b), consts, i) == instrs_from(code, consts, i) + seq![
            Instr::Simple(op),
        ],
    decreases code.len() - i,
{
    let grown = code.push(b);
    if i == code.len() {
        assert(grown[i] == b);
        assert(instrs_from(grown, consts, i + 1) == Seq::<Instr>::empty());
        assert(instrs_from(grown, consts, i) =~= instrs_from(code, consts, i) + seq![
            Instr::Simple(op),
        ]);
    } else {
        assert(grown[i] == code[i]);
        match byte_op(code[i]) {
            None => {},
            Some(cur) => {
                if cur == OpCode::OpConstant {
                    assert(grown[i + 1] == code[i + 1]);
                    lemma_instrs_append_simple(code, consts, b, op, i + 2);
                    assert(instrs_from(grown, consts, i) =~= instrs_from(code, consts, i) + seq![
                        Instr::Simple(op),
                    ]);
                } else {
                    lemma_instrs_append_simple(code, consts, b, op, i + 1);
                    assert(instrs_from(grown, consts, i) =~= instrs_from(code, consts, i) + seq![
                        Instr::Simple(op),
                    ]);
                }
            },
        }
    }
}

/// Appending a constant-load instruction, with the value freshly added to
/// the pool, appends its decoded form.
pub proof fn lemma_instrs_append_const(code: Seq<u8>, consts: Seq<Value>, v: Value, idx: u8, i: int)
    requires
        code_wf_from(code, consts.len() as int, i),
        0 <= i <= code.len(),
        idx as int == consts.len(),
    ensures
        instrs_from(
            code.push(op_byte(OpCode::OpConstant)).push(idx),
            consts.push(v),
            i,
        ) == instrs_from(code, consts, i) + seq![Instr::Const(v)],
    decreases code.len() - i,
{
    let grown = code.push(op_byte(OpCode::OpConstant)).push(idx);
    let grown_consts = consts.push(v);
    if i == code.len() {
        assert(grown[i] == op_byte(OpCode::OpConstant));
        assert(grown[i + 1] == idx);
        assert(grown_consts[idx as int] == v);
        assert(instrs_from(grown, grown_consts, i + 2) == Seq::<Instr>::empty());
        assert(instrs_from(grown, grown_consts, i) =~= instrs_from(code, consts, i) + seq![
            Instr::Const(v),
        ]);
    } else {
        assert(grown[i] == code[i]);
        match byte_op(code[i]) {
            None => {},
            Some(cur) => {
                if cur == OpCode::OpConstant {
                    assert(grown[i + 1] == code[i + 1]);
                    assert(grown_consts[code[i + 1] as int] == consts[code[i + 1] as int]);
                    lemma_instrs_append_const(code, consts, v, idx, i + 2);
                    assert(instrs_from(grown, grown_consts, i) =~= instrs_from(code, consts, i)
                        + seq![Instr::Const(v)]);
                } else {
                    lemma_instrs_append_const(code, consts, v, idx, i + 1);
                    assert(instrs_from(grown, grown_consts, i) =~= instrs_from(code, consts, i)
                        + seq![Instr::Const(v)]);
                }
            },
        }
    }
}

/// Appends the eight little-endian bytes of a bit pattern.
fn push_num_bytes(out: &mut Vec<u8>, bits: u64)
    ensures
        final (out)@ == old(out)@ + le_bytes(bits),
{
    out.push((bits & 0xff) as u8);
    out.push(((bits >> 8) & 0xff) as u8);
    out.push(((bits >> 16) & 0xff) as u8);
    out.push(((bits >> 24) & 0xff) as u8);
    out.push(((bits >> 32) & 0xff) as u8);
    out.push(((bits >> 40) & 0xff) as u8);
    out.push(((bits >> 48) & 0xff) as u8);
    out.push(((bits >> 56) & 0xff) as u8);
    proof {
        assert(out@ =~= old(out)@ + le_bytes(bits));
    }
}

/// Serializes a completed chunk: each instruction in order, constants
/// inlined at full fidelity.
pub fn chunk_to_bytes(c: &Chunk) -> (r: Vec<u8>)
    requires
        c.wf(),
        code_wf(c.code@, c.constants@.len() as int),
    ensures
        r@ == chunk_bytes_from(c.code@, c.constants@, 0),
{
    let ghost code = c.code@;
    let ghost consts = c.constants@;
    let mut out: Vec<u8> = Vec::new();
    let mut i: usize = 0;
    while i < c.code.len()
        invariant
            c.wf(),
            code == c.code@,
            consts == c.constants@,
            i <= c.code@.len(),
            code_wf_from(code, consts.len() as int, i as int),
            out@ + chunk_bytes_from(code, consts, i as int) == chunk_bytes_from(code, consts, 0),
        decreases c.code@.len() - i,
    {
        let ghost pre_out = out@;
        let byte = c.code[i];
        let op = match byte_to_op(byte) {
            Ok(op) => op,
            Err(_) => {
                // A well-formed stream decodes at every boundary.
                proof {
                    assert(false);
                }
                OpCode::OpReturn
            },
        };
        if op == OpCode::OpConstant {
            out.push(byte);
            let idx = c.code[i + 1];
            let v = c.constants[idx as usize];
            match v {
                Value::Nil => {
                    out.push(0);
                },
                Value::Bool(b) => {
                    out.push(1);
                    if b {
                        out.push(1);
                    } else {
                        out.push(0);
                    }
                },
                Value::Num(bits) => {
                    out.push(2);
                    push_num_bytes(&mut out, bits);
                },
            }
            proof {
                assert(out@ =~= pre_out + (seq![code[i as int]] + value_bytes(
                    consts[code[i as int + 1] as int],
                )));
                assert(out@ + chunk_bytes_from(code, consts, i as int + 2) =~= pre_out
                    + chunk_bytes_from(code, consts, i as int));
            }
            i = i + 2;
        } else {
            out.push(byte);
            proof {
                assert(out@ =~= pre_out + seq![code[i as int]]);
                assert(out@ + chunk_bytes_from(code, consts, i as int + 1) =~= pre_out
                    + chunk_bytes_from(code, consts, i as int));
            }
            i = i + 1;
        }
    }
    proof {
        assert(chunk_bytes_from(code, consts, i as int) == Seq::<u8>::empty());
        assert(out@ =~= chunk_bytes_from(code, consts, 0));
    }
    out
}

/// Reads the bit pattern carried by eight little-endian bytes.
fn read_num(bytes: &Vec<u8>, i: usize) -> (r: u64)
    requires
        i + 8 <= bytes@.len(),
    ensures
        r == le_val(bytes@.subrange(i as int, i as int + 8)),
{
    let total = bytes.len();
    proof {
        assert(i + 8 <= total);
    }
    let r = (bytes[i] as u64) | (bytes[i + 1] as u64) << 8 | (bytes[i + 2] as u64) << 16 | (bytes[i
        + 3] as u64) << 24 | (bytes[i + 4] as u64) << 32 | (bytes[i + 5] as u64) << 40 | (bytes[i
        + 6] as u64) << 48 | (bytes[i + 7] as u64) << 56;
    proof {
        let s = bytes@.subrange(i as int, i as int + 8);
        assert(s[0] == bytes@[i as int]);
        assert(s[1] == bytes@[i as int + 1]);
        assert(s[2] == bytes@[i as int + 2]);
        assert(s[3] == bytes@[i as int + 3]);
        assert(s[4] == bytes@[i as int + 4]);
        assert(s[5] == bytes@[i as int + 5]);
        assert(s[6] == bytes@[i as int + 6]);
        assert(s[7] == bytes@[i as int + 7]);
    }
    r
}

/// Reads a serialized stream back into a chunk, rebuilding the constant
/// pool from the inlined values. A malformed stream — an unknown opcode, a
/// bad constant tag, a truncated constant, or more constants than a
/// one-byte index can reach — is rejected with a diagnostic.
pub fn bytes_to_chunk(bytes: &Vec<u8>) -> (r: Result<Chunk, String>)
    ensures
        match r {
            Ok(c) => {
                &&& c.wf()
                &&& code_wf(c.code@, c.constants@.len() as int)
                &&& decode_instrs(bytes@) matches Some(ins) && instrs_from(c.code@, c.constants@, 0)
                    == ins && c.constants@.len() == const_count(ins) && c.code@ == code_of_instrs(
                    ins,
                    0,
                ) && c.constants@ == consts_of_instrs(ins)
                &&& c.lines@.len() == c.code@.len()
                &&& forall|t: int| 0 <= t < c.lines@.len() ==> c.lines@[t] == 1i32
            },
            Err(_) => decode_instrs(bytes@) is None || (decode_instrs(bytes@) matches Some(ins)
                && const_count(ins) > 256),
        },
{
    let mut c = Chunk::new();
    let mut pos: usize = 0;
    let len = bytes.len();
    proof {
        assert(bytes@.subrange(0, len as int) =~= bytes@);
        match decode_instrs(bytes@) {
            Some(rest) => {
                assert(Seq::<Instr>::empty() + rest =~= rest);
            },
            None => {},
        }
        assert(c.code@ =~= code_of_instrs(instrs_from(c.code@, c.constants@, 0), 0));
        assert(c.constants@ =~= consts_of_instrs(instrs_from(c.code@, c.constants@, 0)));
    }
    while pos < len
        invariant
            len == bytes@.len(),
            pos <= len,
            c.wf(),
            code_wf(c.code@, c.constants@.len() as int),
            c.constants@.len() == const_count(instrs_from(c.code@, c.constants@, 0)),
            c.code@ == code_of_instrs(instrs_from(c.code@, c.constants@, 0), 0),
            c.constants@ == consts_of_instrs(instrs_from(c.code@, c.constants@, 0)),
            c.lines@.len() == c.code@.len(),
            forall|t: int| 0 <= t < c.lines@.len() ==> c.lines@[t] == 1i32,
            (match decode_instrs(bytes@.subrange(pos as int, len as int)) {
                Some(rest) => decode_instrs(bytes@) == Some(
                    instrs_from(c.code@, c.constants@, 0) + rest,
                ),
                None => decode_instrs(bytes@) is None,
            }),
        decreases len - pos,
    {
        let ghost pre = c;
        let ghost prefix = instrs_from(pre.code@, pre.constants@, 0);
        let ghost suffix = bytes@.subrange(pos as int, len as int);
        proof {
            assert(suffix.len() == len - pos);
            assert(suffix[0] == bytes@[pos as int]);
        }
        let byte = bytes[pos];
        let op = match byte_to_op(byte) {
            Ok(op) => op,
            Err(e) => {
                proof {
                    assert(decode_instrs(suffix) is None);
                }
                return Err(e);
            },
        };
        if op == OpCode::OpConstant {
            if pos + 1 >= len {
                proof {
                    assert(decode_instrs(suffix) is None);
                }
                return Err(String::from_str("Unexpected end of instruction stream."));
            }
            proof {
                assert(suffix[1] == bytes@[pos as int + 1]);
            }
            let tag = bytes[pos + 1];
            let mut value = Value::Nil;
            let mut consumed: usize = 2;
            if tag == 0 {
            } else if tag == 1 {
                if pos + 2 >= len {
                    proof {
                        assert(decode_instrs(suffix) is None);
                    }
                    return Err(String::from_str("Unexpected end of instruction stream."));
                }
                proof {
                    assert(suffix[2] == bytes@[pos as int + 2]);
                }
                let payload = bytes[pos + 2];
                if payload > 1 {
                    proof {
                        assert(decode_instrs(suffix) is None);
                    }
                    return Err(String::from_str("Invalid constant in instruction stream."));
                }
                value = Value::Bool(payload == 1);
                consumed = 3;
            } else if tag == 2 {
                if len - pos < 10 {
                    proof {
                        assert(decode_instrs(suffix) is None);
                    }
                    return Err(String::from_str("Unexpected end of instruction stream."));
                }
                let bits = read_num(bytes, pos + 2);
                proof {
                    assert(bytes@.subrange(pos as int + 2, pos as int + 10) =~= suffix.subrange(
                        2,
                        10,
                    ));
                }
                value = Value::Num(bits);
                consumed = 10;
            } else {
                proof {
                    assert(decode_instrs(suffix) is None);
                }
                return Err(String::from_str("Invalid constant in instruction stream."));
            }
            let ghost suffix_rest = bytes@.subrange(pos as int + consumed as int, len as int);
            proof {
                assert(suffix.subrange(consumed as int, suffix.len() as int) =~= suffix_rest);
                assert(decode_instrs(suffix) == decode_cons(
                    Instr::Const(value),
                    decode_instrs(suffix_rest),
                ));
            }
            if c.constants.len() >= 256 {
                proof {
                    match decode_instrs(suffix_rest) {
                        Some(rest) => {
                            lemma_const_count_append(prefix, seq![Instr::Const(value)] + rest);
                            lemma_const_count_append(seq![Instr::Const(value)], rest);
                            assert(seq![Instr::Const(value)].drop_first()
                                =~= Seq::<Instr>::empty());
                            assert(const_count(Seq::<Instr>::empty()) == 0);
                            assert(const_count(seq![Instr::Const(value)]) == 1);
                        },
                        None => {},
                    }
                }
                return Err(String::from_str("Too many constants in one chunk."));
            }
            let idx = c.add_constant(value);
            proof {
                lemma_instrs_append_const(pre.code@, pre.constants@, value, idx, 0);
                lemma_code_wf_nconsts_mono(
                    pre.code@,
                    pre.constants@.len() as int,
                    c.constants@.len() as int,
                    0,
                );
                lemma_code_wf_append_constant(pre.code@, c.constants@.len() as int, idx, 0);
            }
            c.write_instruction(OpCode::OpConstant, 1);
            c.write_byte(idx, 1);
            proof {
                let now = instrs_from(c.code@, c.constants@, 0);
                assert(now == prefix + seq![Instr::Const(value)]);
                lemma_const_count_append(prefix, seq![Instr::Const(value)]);
                assert(seq![Instr::Const(value)].drop_first() =~= Seq::<Instr>::empty());
                assert(const_count(Seq::<Instr>::empty()) == 0);
                assert(const_count(seq![Instr::Const(value)]) == 1);
                lemma_code_of_append(prefix, seq![Instr::Const(value)], 0);
                lemma_consts_of_append(prefix, seq![Instr::Const(value)]);
                assert(code_of_instrs(Seq::<Instr>::empty(), const_count(prefix) as int + 1) =~= Seq::<
                    u8,
                >::empty());
                assert(consts_of_instrs(Seq::<Instr>::empty()) =~= Seq::<Value>::empty());
                assert(idx as int == const_count(prefix) as int);
                assert(code_of_instrs(seq![Instr::Const(value)], const_count(prefix) as int)
                    =~= seq![op_byte(OpCode::OpConstant), idx]);
                assert(consts_of_instrs(seq![Instr::Const(value)]) =~= seq![value]);
                assert(c.code@ =~= code_of_instrs(now, 0));
                assert(c.constants@ =~= consts_of_instrs(now));
                match decode_instrs(suffix_rest) {
                    Some(rest) => {
                        assert(prefix + (seq![Instr::Const(value)] + rest) =~= now + rest);
                    },
                    None => {},
                }
            }
            pos = pos + consumed;
        } else {
            let ghost suffix_rest = bytes@.subrange(pos as int + 1, len as int);
            proof {
                assert(suffix.subrange(1, suffix.len() as int) =~= suffix_rest);
                assert(decode_instrs(suffix) == decode_cons(
                    Instr::Simple(op),
                    decode_instrs(suffix_rest),
                ));
                lemma_op_byte_roundtrip(op, byte);
                lemma_instrs_append_simple(pre.code@, pre.constants@, byte, op, 0);
                crate::chunk::lemma_code_wf_append_simple(
                    pre.code@,
                    pre.constants@.len() as int,
                    byte,
                    0,
                );
            }
            c.write_instruction(op, 1);
            proof {
                assert(c.code@ == pre.code@.push(byte));
                let now = instrs_from(c.code@, c.constants@, 0);
                assert(now == prefix + seq![Instr::Simple(op)]);
                lemma_const_count_append(prefix, seq![Instr::Simple(op)]);
                assert(seq![Instr::Simple(op)].drop_first() =~= Seq::<Instr>::empty());
                assert(const_count(Seq::<Instr>::empty()) == 0);
                assert(const_count(seq![Instr::Simple(op)]) == 0);
                lemma_code_of_append(prefix, seq![Instr::Simple(op)], 0);
                lemma_consts_of_append(prefix, seq![Instr::Simple(op)]);
                assert(code_of_instrs(Seq::<Instr>::empty(), const_count(prefix) as int) =~= Seq::<
                    u8,
                >::empty());
                assert(consts_of_instrs(Seq::<Instr>::empty()) =~= Seq::<Value>::empty());
                assert(code_of_instrs(seq![Instr::Simple(op)], const_count(prefix) as int)
                    =~= seq![op_byte(op)]);
                assert(consts_of_instrs(seq![Instr::Simple(op)]) =~= Seq::<Value>::empty());
                assert(c.code@ =~= code_of_instrs(now, 0));
                assert(c.constants@ =~= consts_of_instrs(now));
                match decode_instrs(suffix_rest) {
                    Some(rest) => {
                        assert(prefix + (seq![Instr::Simple(op)] + rest) =~= now + rest);
                    },
                    None => {},
                }
            }
            pos = pos + 1;
        }
    }
    proof {
        assert(bytes@.subrange(pos as int, len as int).len() == 0);
        assert(decode_instrs(bytes@.subrange(pos as int, len as int)) == Some(
            Seq::<Instr>::empty(),
        ));
        let prefix = instrs_from(c.code@, c.constants@, 0);
        assert(prefix + Seq::<Instr>::empty() =~= prefix);
    }
    Ok(c)
}

} // verus!
