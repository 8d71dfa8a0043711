//! The virtual machine: an operand stack and an instruction pointer over a
//! loaded chunk. Execution is specified by a spec-level machine
//! (`run_spec`); the executable interpreter is proved to produce exactly
//! the outcome that machine gives, and to leave an empty stack behind on
//! every runtime fault, so one machine can run many chunks in sequence.

use vstd::prelude::*;
use vstd::string::*;

use crate::chunk::Chunk;
use crate::chunk::OpCode;
use crate::chunk::byte_op;
use crate::chunk::byte_to_op;
use crate::chunk::bad_byte_msg;
use crate::chunk::code_wf_from;
use crate::chunk::code_halts_from;
use crate::chunk::op_byte;
use crate::chunk::seg_depth;
use crate::chunk::is_literal_byte;
use crate::chunk::is_unary_byte;
use crate::compiler::Compiler;
use crate::encode::bytes_to_chunk;
use crate::encode::decode_instrs;
use crate::encode::const_count;
use crate::encode::code_of_instrs;
use crate::encode::consts_of_instrs;
use crate::value::ValueType;
use crate::numeric::add_bits;
use crate::numeric::sub_bits;
use crate::numeric::mul_bits;
use crate::numeric::div_bits;
use crate::numeric::neg_bits;
use crate::numeric::lt_bits;
use crate::numeric::gt_bits;
use crate::numeric::eq_bits;
use crate::numeric::num_add;
use crate::numeric::num_sub;
use crate::numeric::num_mul;
use crate::numeric::num_div;
use crate::numeric::num_neg;
use crate::numeric::num_lt;
use crate::numeric::num_gt;
use crate::numeric::num_eq;
use crate::text::dec_str_signed;
use crate::text::i32_dec;
use crate::value::Value;

verus! {

/// How a run can fail: a failure signal for each phase of the pipeline.
#[derive(PartialEq, Eq, Structural, Debug, Clone, Copy)]
pub enum InterpretResult {
    InterpretCompileError,
    InterpretRuntimeError,
}

/// Why the machine faulted at an instruction.
#[derive(PartialEq, Eq, Structural, Debug, Clone, Copy)]
pub enum FaultKind {
    /// The instruction pointer ran past the end of the stream.
    PastEnd,
    /// The byte at the instruction pointer encodes no instruction.
    BadOpcode,
    /// A constant instruction sits at the very end, without its operand.
    MissingOperand,
    /// A constant operand indexes outside the pool.
    BadConstant,
    /// An instruction needed more operands than the stack holds.
    StackEmpty,
    /// Binary arithmetic or comparison on operands that are not numbers.
    NotNumbers,
    /// Negation of a value that is not a number.
    NotNumber,
}

/// The outcome of executing a chunk: the value the terminating return
/// instruction reported, or the offset and kind of the first fault.
pub enum RunOutcome {
    Done(Option<Value>),
    Fault(int, FaultKind),
}

/// Logical falsiness: nil and false are falsey, every other value —
/// including the number zero — is truthy.
pub open spec fn is_falsey_spec(v: Value) -> bool {
    v == Value::Nil || v == Value::Bool(false)
}

/// Value equality: defined only between values of the same kind —
/// cross-kind comparisons are always unequal. Nil equals nil, booleans
/// compare by payload, numbers by IEEE-754 equality.
pub open spec fn value_eq_spec(a: Value, b: Value) -> bool {
    match (a, b) {
        (Value::Nil, Value::Nil) => true,
        (Value::Bool(x), Value::Bool(y)) => x == y,
        (Value::Num(x), Value::Num(y)) => eq_bits(x, y),
        _ => false,
    }
}

/// The spec-level machine: decodes and executes the stream from `ip` on,
/// over the given constant pool and operand stack, to its outcome. The
/// right operand of a binary operation is on top of the stack.
pub open spec fn run_spec(code: Seq<u8>, consts: Seq<Value>, ip: int, stack: Seq<Value>) -> RunOutcome
    decreases code.len() - ip,
{
    if ip < 0 || ip >= code.len() {
        RunOutcome::Fault(ip, FaultKind::PastEnd)
    } else {
        match byte_op(code[ip]) {
            None => RunOutcome::Fault(ip, FaultKind::BadOpcode),
            Some(op) => match op {
                OpCode::OpReturn => RunOutcome::Done(
                    if stack.len() > 0 {
                        Some(stack.last())
                    } else {
                        None
                    },
                ),
                OpCode::OpConstant => {
                    if ip + 1 >= code.len() {
                        RunOutcome::Fault(ip, FaultKind::MissingOperand)
                    } else if consts.len() <= code[ip + 1] {
                        RunOutcome::Fault(ip, FaultKind::BadConstant)
                    } else {
                        run_spec(code, consts, ip + 2, stack.push(consts[code[ip + 1] as int]))
                    }
                },
                OpCode::OpNil => run_spec(code, consts, ip + 1, stack.push(Value::Nil)),
                OpCode::OpTrue => run_spec(code, consts, ip + 1, stack.push(Value::Bool(true))),
                OpCode::OpFalse => run_spec(code, consts, ip + 1, stack.push(Value::Bool(false))),
                OpCode::OpNegate => {
                    if stack.len() == 0 {
                        RunOutcome::Fault(ip, FaultKind::StackEmpty)
                    } else {
                        match stack.last() {
                            Value::Num(n) => run_spec(
                                code,
                                consts,
                                ip + 1,
                                stack.drop_last().push(Value::Num(neg_bits(n))),
                            ),
                            _ => RunOutcome::Fault(ip, FaultKind::NotNumber),
                        }
                    }
                },
                OpCode::OpNot => {
                    if stack.len() == 0 {
                        RunOutcome::Fault(ip, FaultKind::StackEmpty)
                    } else {
                        run_spec(
                            code,
                            consts,
                            ip + 1,
                            stack.drop_last().push(Value::Bool(is_falsey_spec(stack.last()))),
                        )
                    }
                },
                OpCode::OpEqual => {
                    if stack.len() < 2 {
                        RunOutcome::Fault(ip, FaultKind::StackEmpty)
                    } else {
                        run_spec(
                            code,
                            consts,
                            ip + 1,
                            stack.drop_last().drop_last().push(
                                Value::Bool(
                                    value_eq_spec(stack.last(), stack[stack.len() - 2]),
                                ),
                            ),
                        )
                    }
                },
                _ => {
                    // The arithmetic and comparison instructions, all of
                    // which demand two numbers.
                    if stack.len() < 2 {
                        RunOutcome::Fault(ip, FaultKind::StackEmpty)
                    } else {
                        match (stack[stack.len() - 2], stack.last()) {
                            (Value::Num(left), Value::Num(right)) => {
                                let result = match op {
                                    OpCode::OpAdd => Value::Num(add_bits(left, right)),
                                    OpCode::OpSubtract => Value::Num(sub_bits(left, right)),
                                    OpCode::OpMultiply => Value::Num(mul_bits(left, right)),
                                    OpCode::OpDivide => Value::Num(div_bits(left, right)),
                                    OpCode::OpGreater => Value::Bool(gt_bits(left, right)),
                                    _ => Value::Bool(lt_bits(left, right)),
                                };
                                run_spec(
                                    code,
                                    consts,
                                    ip + 1,
                                    stack.drop_last().drop_last().push(result),
                                )
                            },
                            _ => RunOutcome::Fault(ip, FaultKind::NotNumbers),
                        }
                    }
                },
            },
        }
    }
}

/// The operand stack the machine leaves behind when it finishes: the
/// stack standing at its return instruction, minus the value that
/// instruction pops to report. Meaningless on a faulting run — a fault
/// clears the stack instead.
pub open spec fn run_spec_stack(
    code: Seq<u8>,
    consts: Seq<Value>,
    ip: int,
    stack: Seq<Value>,
) -> Seq<Value>
    decreases code.len() - ip,
{
    if ip < 0 || ip >= code.len() {
        stack
    } else {
        match byte_op(code[ip]) {
            None => stack,
            Some(op) => match op {
                OpCode::OpReturn => if stack.len() > 0 {
                    stack.drop_last()
                } else {
                    stack
                },
                OpCode::OpConstant => {
                    if ip + 1 >= code.len() {
                        stack
                    } else if consts.len() <= code[ip + 1] {
                        stack
                    } else {
                        run_spec_stack(code, consts, ip + 2, stack.push(consts[code[ip + 1] as int]))
                    }
                },
                OpCode::OpNil => run_spec_stack(code, consts, ip + 1, stack.push(Value::Nil)),
                OpCode::OpTrue => run_spec_stack(
                    code,
                    consts,
                    ip + 1,
                    stack.push(Value::Bool(true)),
                ),
                OpCode::OpFalse => run_spec_stack(
                    code,
                    consts,
                    ip + 1,
                    stack.push(Value::Bool(false)),
                ),
                OpCode::OpNegate => {
                    if stack.len() == 0 {
                        stack
                    } else {
                        match stack.last() {
                            Value::Num(n) => run_spec_stack(
                                code,
                                consts,
                                ip + 1,
                                stack.drop_last().push(Value::Num(neg_bits(n))),
                            ),
                            _ => stack,
                        }
                    }
                },
                OpCode::OpNot => {
                    if stack.len() == 0 {
                        stack
                    } else {
                        run_spec_stack(
                            code,
                            consts,
                            ip + 1,
                            stack.drop_last().push(Value::Bool(is_falsey_spec(stack.last()))),
                        )
                    }
                },
                OpCode::OpEqual => {
                    if stack.len() < 2 {
                        stack
                    } else {
                        run_spec_stack(
                            code,
                            consts,
                            ip + 1,
                            stack.drop_last().drop_last().push(
                                Value::Bool(
                                    value_eq_spec(stack.last(), stack[stack.len() - 2]),
                                ),
                            ),
                        )
                    }
                },
                _ => {
                    if stack.len() < 2 {
                        stack
                    } else {
                        match (stack[stack.len() - 2], stack.last()) {
                            (Value::Num(left), Value::Num(right)) => {
                                let result = match op {
                                    OpCode::OpAdd => Value::Num(add_bits(left, right)),
                                    OpCode::OpSubtract => Value::Num(sub_bits(left, right)),
                                    OpCode::OpMultiply => Value::Num(mul_bits(left, right)),
                                    OpCode::OpDivide => Value::Num(div_bits(left, right)),
                                    OpCode::OpGreater => Value::Bool(gt_bits(left, right)),
                                    _ => Value::Bool(lt_bits(left, right)),
                                };
                                run_spec_stack(
                                    code,
                                    consts,
                                    ip + 1,
                                    stack.drop_last().drop_last().push(result),
                                )
                            },
                            _ => stack,
                        }
                    }
                },
            },
        }
    }
}

/// The message each fault kind reports.
pub open spec fn fault_msg(code: Seq<u8>, offset: int, kind: FaultKind) -> Seq<char> {
    match kind {
        FaultKind::PastEnd => "Instruction pointer out of bounds."@,
        FaultKind::BadOpcode => bad_byte_msg(code[offset]),
        FaultKind::MissingOperand => "Constant instruction is missing its operand."@,
        FaultKind::BadConstant => "Constant index out of bounds."@,
        FaultKind::StackEmpty => "Operands missing."@,
        FaultKind::NotNumbers => "Operands must be numbers."@,
        FaultKind::NotNumber => "Operand must be number."@,
    }
}

/// The source line blamed for a fault: the line recorded for its offset,
/// or zero when the fault lies outside the stream.
pub open spec fn fault_line(c: Chunk, offset: int) -> int {
    if 0 <= offset < c.lines@.len() {
        c.lines@[offset] as int
    } else {
        0
    }
}

/// The full diagnostic a fault produces: the message and the blamed line.
pub open spec fn fault_diag(c: Chunk, offset: int, kind: FaultKind) -> Seq<char> {
    fault_msg(c.code@, offset, kind) + "\n[line "@ + dec_str_signed(fault_line(c, offset))
        + "] in script"@
}

/// A well-formed, halting stream — which is what the compiler emits —
/// never produces a decode fault: the only faults left are the runtime
/// type and stack errors.
pub proof fn lemma_wf_code_decodes(code: Seq<u8>, consts: Seq<Value>, ip: int, stack: Seq<Value>)
    requires
        code_wf_from(code, consts.len() as int, ip),
        code_halts_from(code, ip),
        0 <= ip,
    ensures
        match run_spec(code, consts, ip, stack) {
            RunOutcome::Done(_) => true,
            RunOutcome::Fault(_, kind) => kind == FaultKind::StackEmpty || kind
                == FaultKind::NotNumbers || kind == FaultKind::NotNumber,
        },
    decreases code.len() - ip,
{
    if ip >= code.len() {
    } else {
        match byte_op(code[ip]) {
            None => {},
            Some(op) => match op {
                OpCode::OpReturn => {},
                OpCode::OpConstant => {
                    lemma_wf_code_decodes(
                        code,
                        consts,
                        ip + 2,
                        stack.push(consts[code[ip + 1] as int]),
                    );
                },
                OpCode::OpNil => {
                    lemma_wf_code_decodes(code, consts, ip + 1, stack.push(Value::Nil));
                },
                OpCode::OpTrue => {
                    lemma_wf_code_decodes(code, consts, ip + 1, stack.push(Value::Bool(true)));
                },
                OpCode::OpFalse => {
                    lemma_wf_code_decodes(code, consts, ip + 1, stack.push(Value::Bool(false)));
                },
                OpCode::OpNegate => {
                    if stack.len() > 0 {
                        match stack.last() {
                            Value::Num(n) => {
                                lemma_wf_code_decodes(
                                    code,
                                    consts,
                                    ip + 1,
                                    stack.drop_last().push(Value::Num(neg_bits(n))),
                                );
                            },
                            _ => {},
                        }
                    }
                },
                OpCode::OpNot => {
                    if stack.len() > 0 {
                        lemma_wf_code_decodes(
                            code,
                            consts,
                            ip + 1,
                            stack.drop_last().push(Value::Bool(is_falsey_spec(stack.last()))),
                        );
                    }
                },
                OpCode::OpEqual => {
                    if stack.len() >= 2 {
                        lemma_wf_code_decodes(
                            code,
                            consts,
                            ip + 1,
                            stack.drop_last().drop_last().push(
                                Value::Bool(
                                    value_eq_spec(stack.last(), stack[stack.len() - 2]),
                                ),
                            ),
                        );
                    }
                },
                _ => {
                    if stack.len() >= 2 {
                        match (stack[stack.len() - 2], stack.last()) {
                            (Value::Num(left), Value::Num(right)) => {
                                let result = match op {
                                    OpCode::OpAdd => Value::Num(add_bits(left, right)),
                                    OpCode::OpSubtract => Value::Num(sub_bits(left, right)),
                                    OpCode::OpMultiply => Value::Num(mul_bits(left, right)),
                                    OpCode::OpDivide => Value::Num(div_bits(left, right)),
                                    OpCode::OpGreater => Value::Bool(gt_bits(left, right)),
                                    _ => Value::Bool(lt_bits(left, right)),
                                };
                                lemma_wf_code_decodes(
                                    code,
                                    consts,
                                    ip + 1,
                                    stack.drop_last().drop_last().push(result),
                                );
                            },
                            _ => {},
                        }
                    }
                },
            },
        }
    }
}

/// The semantic reading of `seg_depth`: a segment the scan accepts at the
/// present stack depth, followed by a return instruction, runs to a
/// reported value or stops at a runtime type error — never a decode fault,
/// never a stack underflow, never silence.
pub proof fn lemma_seg_then_return(
    code: Seq<u8>,
    consts: Seq<Value>,
    i: int,
    j: int,
    s: Seq<Value>,
)
    requires
        0 <= i,
        seg_depth(code, consts.len() as int, i, j, s.len() as int) matches Some(depth) && depth
            >= 1,
        j < code.len(),
        code[j] == op_byte(OpCode::OpReturn),
    ensures
        match run_spec(code, consts, i, s) {
            RunOutcome::Done(v) => v is Some,
            RunOutcome::Fault(_, kind) => kind == FaultKind::NotNumbers || kind
                == FaultKind::NotNumber,
        },
    decreases j - i,
{
    if i == j {
        assert(s.len() >= 1);
        assert(run_spec(code, consts, i, s) == RunOutcome::Done(Some(s.last())));
    } else {
        let b = code[i];
        assert(0 <= i && i < j && j <= code.len());
        if is_literal_byte(b) {
            let v = if b == op_byte(OpCode::OpNil) {
                Value::Nil
            } else if b == op_byte(OpCode::OpTrue) {
                Value::Bool(true)
            } else {
                Value::Bool(false)
            };
            lemma_seg_then_return(code, consts, i + 1, j, s.push(v));
            assert(run_spec(code, consts, i, s) == run_spec(code, consts, i + 1, s.push(v)));
        } else if b == op_byte(OpCode::OpConstant) {
            let v = consts[code[i + 1] as int];
            lemma_seg_then_return(code, consts, i + 2, j, s.push(v));
            assert(run_spec(code, consts, i, s) == run_spec(code, consts, i + 2, s.push(v)));
        } else if is_unary_byte(b) {
            if b == op_byte(OpCode::OpNegate) {
                match s.last() {
                    Value::Num(n) => {
                        let s2 = s.drop_last().push(Value::Num(neg_bits(n)));
                        assert(s2.len() == s.len());
                        lemma_seg_then_return(code, consts, i + 1, j, s2);
                        assert(run_spec(code, consts, i, s) == run_spec(code, consts, i + 1, s2));
                    },
                    _ => {
                        assert(run_spec(code, consts, i, s) == RunOutcome::Fault(
                            i,
                            FaultKind::NotNumber,
                        ));
                    },
                }
            } else {
                let s2 = s.drop_last().push(Value::Bool(is_falsey_spec(s.last())));
                assert(s2.len() == s.len());
                lemma_seg_then_return(code, consts, i + 1, j, s2);
                assert(run_spec(code, consts, i, s) == run_spec(code, consts, i + 1, s2));
            }
        } else {
            // A binary operation; the scan guarantees two operands.
            if b == op_byte(OpCode::OpEqual) {
                let s2 = s.drop_last().drop_last().push(
                    Value::Bool(value_eq_spec(s.last(), s[s.len() - 2])),
                );
                assert(s2.len() == s.len() - 1);
                lemma_seg_then_return(code, consts, i + 1, j, s2);
                assert(run_spec(code, consts, i, s) == run_spec(code, consts, i + 1, s2));
            } else {
                match (s[s.len() - 2], s.last()) {
                    (Value::Num(left), Value::Num(right)) => {
                        let op = match byte_op(b) {
                            Some(op) => op,
                            None => OpCode::OpAdd,
                        };
                        let result = match op {
                            OpCode::OpAdd => Value::Num(add_bits(left, right)),
                            OpCode::OpSubtract => Value::Num(sub_bits(left, right)),
                            OpCode::OpMultiply => Value::Num(mul_bits(left, right)),
                            OpCode::OpDivide => Value::Num(div_bits(left, right)),
                            OpCode::OpGreater => Value::Bool(gt_bits(left, right)),
                            _ => Value::Bool(lt_bits(left, right)),
                        };
                        let s2 = s.drop_last().drop_last().push(result);
                        assert(s2.len() == s.len() - 1);
                        lemma_seg_then_return(code, consts, i + 1, j, s2);
                        assert(run_spec(code, consts, i, s) == run_spec(code, consts, i + 1, s2));
                    },
                    _ => {
                        assert(run_spec(code, consts, i, s) == RunOutcome::Fault(
                            i,
                            FaultKind::NotNumbers,
                        ));
                    },
                }
            }
        }
    }
}

/// Code of the shape the compiler emits — one expression segment closed by
/// a return instruction — runs from an empty stack either to a reported
/// value or to a runtime type error: never a decode fault, never a stack
/// underflow, and never a silent finish.
pub proof fn lemma_expression_code_reports(code: Seq<u8>, consts: Seq<Value>)
    requires
        code.len() >= 1,
        seg_depth(code, consts.len() as int, 0, code.len() - 1, 0) == Some(1int),
        code[code.len() - 1] == op_byte(OpCode::OpReturn),
    ensures
        match run_spec(code, consts, 0, Seq::<Value>::empty()) {
            RunOutcome::Done(v) => v is Some,
            RunOutcome::Fault(_, kind) => kind == FaultKind::NotNumbers || kind
                == FaultKind::NotNumber,
        },
{
    lemma_seg_then_return(code, consts, 0, code.len() - 1, Seq::<Value>::empty());
}

/// The virtual machine. One instance can run many chunks in sequence: a
/// fault clears the stack and leaves the machine ready for the next run.
#[derive(Debug)]
pub struct Vm {
    pub chunk: Option<Chunk>,
    pub stack: Vec<Value>,
    pub ip: usize,
    pub diagnostics: Vec<String>,
}

impl Vm {
    /// The machine's invariant: whatever chunk is loaded is well formed.
    pub open spec fn wf(self) -> bool {
        match self.chunk {
            Some(c) => c.wf(),
            None => true,
        }
    }

    /// The loaded instruction stream.
    pub open spec fn scode(self) -> Seq<u8> {
        match self.chunk {
            Some(c) => c.code@,
            None => Seq::<u8>::empty(),
        }
    }

    /// The loaded constant pool.
    pub open spec fn sconsts(self) -> Seq<Value> {
        match self.chunk {
            Some(c) => c.constants@,
            None => Seq::<Value>::empty(),
        }
    }

    /// What the spec-level machine yields from the machine's present state.
    pub open spec fn state_spec(self) -> RunOutcome {
        run_spec(self.scode(), self.sconsts(), self.ip as int, self.stack@)
    }

    /// The stack the spec-level machine leaves from the present state.
    pub open spec fn stack_spec(self) -> Seq<Value> {
        run_spec_stack(self.scode(), self.sconsts(), self.ip as int, self.stack@)
    }

    pub fn new() -> (r: Self)
        ensures
            r.wf(),
            r.chunk is None,
            r.stack@.len() == 0,
            r.ip == 0,
            r.diagnostics@.len() == 0,
    {
        Vm { chunk: None, stack: Vec::new(), ip: 0, diagnostics: Vec::new() }
    }

    /// Pushes a value onto the operand stack.
    pub fn push_stack(&mut self, value: Value)
        ensures
            final (self).stack@ == old(self).stack@.push(value),
            final (self).chunk == old(self).chunk,
            final (self).ip == old(self).ip,
            final (self).diagnostics == old(self).diagnostics,
    {
        self.stack.push(value);
    }

    /// Pops the top of the operand stack, if any.
    pub fn pop_stack(&mut self) -> (r: Option<Value>)
        ensures
            final (self).chunk == old(self).chunk,
            final (self).ip == old(self).ip,
            final (self).diagnostics == old(self).diagnostics,
            old(self).stack@.len() > 0 ==> r == Some(old(self).stack@.last())
                && final (self).stack@ == old(self).stack@.drop_last(),
            old(self).stack@.len() == 0 ==> r is None && final (self).stack@ == old(self).stack@,
    {
        self.stack.pop()
    }

    /// Inspects the stack without popping: distance zero is the top.
    pub fn peek_stack(&self, distance: usize) -> (r: Option<Value>)
        ensures
            r == (if distance < self.stack@.len() {
                Some(self.stack@[self.stack@.len() - 1 - distance])
            } else {
                None::<Value>
            }),
    {
        let len = self.stack.len();
        if distance < len {
            Some(self.stack[len - 1 - distance])
        } else {
            None
        }
    }

    /// Logical falsiness of a value: nil and false are falsey, every other
    /// value — the number zero included — is truthy.
    pub fn is_falsey(&self, value: &Value) -> (r: bool)
        ensures
            r == is_falsey_spec(*value),
    {
        match value {
            Value::Nil => true,
            Value::Bool(b) => !*b,
            Value::Num(_) => false,
        }
    }

    /// Value equality, kind-sensitive: values of different kinds are never
    /// equal; numbers compare by IEEE-754 equality.
    pub fn values_equal(&self, a: Value, b: Value) -> (r: bool)
        ensures
            r == value_eq_spec(a, b),
    {
        match (a, b) {
            (Value::Nil, Value::Nil) => true,
            (Value::Bool(x), Value::Bool(y)) => x == y,
            (Value::Num(x), Value::Num(y)) => num_eq(x, y),
            _ => false,
        }
    }

    fn reset_stack(&mut self)
        ensures
            final (self).stack@.len() == 0,
            final (self).chunk == old(self).chunk,
            final (self).ip == old(self).ip,
            final (self).diagnostics == old(self).diagnostics,
    {
        self.stack.clear();
    }

    /// Records a runtime fault: the message, then the blamed source line,
    /// and clears the stack so the machine stays reusable.
    fn runtime_fault(&mut self, offset: usize, message: String)
        requires
            old(self).wf(),
            old(self).chunk is Some,
        ensures
            final (self).wf(),
            final (self).chunk == old(self).chunk,
            final (self).ip == old(self).ip,
            final (self).stack@.len() == 0,
            final (self).diagnostics@.len() == old(self).diagnostics@.len() + 1,
            old(self).diagnostics@.is_prefix_of(final (self).diagnostics@),
            (match old(self).chunk {
                Some(c) => final (self).diagnostics@.last()@ == message@ + "\n[line "@
                    + dec_str_signed(fault_line(c, offset as int)) + "] in script"@,
                None => true,
            }),
    {
        let line: i32 = match &self.chunk {
            Some(c) => {
                if offset < c.lines.len() {
                    c.lines[offset]
                } else {
                    0
                }
            },
            None => 0,
        };
        let mut diag = message;
        diag.append("\n[line ");
        diag.append(i32_dec(line).as_str());
        diag.append("] in script");
        self.diagnostics.push(diag);
        self.reset_stack();
    }

    /// Executes exactly one instruction of the loaded chunk: `None` means
    /// the machine stepped and is ready for the next instruction — with
    /// the outcome of the whole run unchanged — while `Some` carries that
    /// final outcome, exactly as `run` would report it. This is the
    /// single-step interface an execution tracer drives, disassembling
    /// each instruction before stepping it.
    pub fn step(&mut self) -> (r: Option<Result<Option<Value>, InterpretResult>>)
        requires
            old(self).wf(),
            old(self).chunk is Some,
        ensures
            final (self).wf(),
            final (self).chunk == old(self).chunk,
            old(self).diagnostics@.is_prefix_of(final (self).diagnostics@),
            match r {
                None => final (self).state_spec() == old(self).state_spec()
                    && final (self).stack_spec() == old(self).stack_spec()
                    && final (self).diagnostics == old(self).diagnostics
                    && old(self).ip < final (self).ip
                    && final (self).ip <= final (self).scode().len(),
                Some(out) => (match (old(self).chunk, old(self).state_spec()) {
                    (Some(c), RunOutcome::Done(v)) => out == Ok::<Option<Value>, InterpretResult>(
                        v,
                    ) && final (self).diagnostics == old(self).diagnostics && final (self).stack@
                        == old(self).stack_spec(),
                    (Some(c), RunOutcome::Fault(offset, kind)) => out == Err::<
                        Option<Value>,
                        InterpretResult,
                    >(InterpretResult::InterpretRuntimeError) && final (self).stack@.len() == 0
                        && final (self).diagnostics@.len() == old(self).diagnostics@.len() + 1
                        && final (self).diagnostics@.last()@ == fault_diag(c, offset, kind),
                    (None, _) => true,
                }),
            },
    {
        {
            let ghost pre = *self;
            let offset = self.ip;
            let code_len = match &self.chunk {
                Some(c) => c.code.len(),
                None => 0,
            };
            if offset >= code_len {
                self.runtime_fault(offset, String::from_str("Instruction pointer out of bounds."));
                return Some(Err(InterpretResult::InterpretRuntimeError));
            }
            let byte = match &self.chunk {
                Some(c) => c.code[offset],
                None => 0,
            };
            let op = match byte_to_op(byte) {
                Ok(op) => op,
                Err(e) => {
                    self.runtime_fault(offset, e);
                    return Some(Err(InterpretResult::InterpretRuntimeError));
                },
            };
            match op {
                OpCode::OpReturn => {
                    let v = self.stack.pop();
                    return Some(Ok(v));
                },
                OpCode::OpConstant => {
                    let operand_in_range = match &self.chunk {
                        Some(c) => offset + 1 < c.code.len(),
                        None => false,
                    };
                    if !operand_in_range {
                        self.runtime_fault(
                            offset,
                            String::from_str("Constant instruction is missing its operand."),
                        );
                        return Some(Err(InterpretResult::InterpretRuntimeError));
                    }
                    let operand = match &self.chunk {
                        Some(c) => c.code[offset + 1],
                        None => 0,
                    };
                    let index_in_range = match &self.chunk {
                        Some(c) => (operand as usize) < c.constants.len(),
                        None => false,
                    };
                    if !index_in_range {
                        self.runtime_fault(offset, String::from_str("Constant index out of bounds."));
                        return Some(Err(InterpretResult::InterpretRuntimeError));
                    }
                    let value = match &self.chunk {
                        Some(c) => c.constants[operand as usize],
                        None => Value::Nil,
                    };
                    self.stack.push(value);
                    self.ip = offset + 2;
                    proof {
                        assert(self.state_spec() == pre.state_spec());
                        assert(self.stack_spec() == pre.stack_spec());
                    }
                },
                OpCode::OpNil => {
                    self.stack.push(Value::Nil);
                    self.ip = offset + 1;
                    proof {
                        assert(self.state_spec() == pre.state_spec());
                        assert(self.stack_spec() == pre.stack_spec());
                    }
                },
                OpCode::OpTrue => {
                    self.stack.push(Value::Bool(true));
                    self.ip = offset + 1;
                    proof {
                        assert(self.state_spec() == pre.state_spec());
                        assert(self.stack_spec() == pre.stack_spec());
                    }
                },
                OpCode::OpFalse => {
                    self.stack.push(Value::Bool(false));
                    self.ip = offset + 1;
                    proof {
                        assert(self.state_spec() == pre.state_spec());
                        assert(self.stack_spec() == pre.stack_spec());
                    }
                },
                OpCode::OpNegate => {
                    if self.stack.len() == 0 {
                        self.runtime_fault(offset, String::from_str("Operands missing."));
                        return Some(Err(InterpretResult::InterpretRuntimeError));
                    }
                    let top = self.stack[self.stack.len() - 1];
                    match top {
                        Value::Num(n) => {
                            self.stack.pop();
                            self.stack.push(Value::Num(num_neg(n)));
                            self.ip = offset + 1;
                            proof {
                                assert(self.stack@ =~= pre.stack@.drop_last().push(
                                    Value::Num(neg_bits(n)),
                                ));
                                assert(self.state_spec() == pre.state_spec());
                        assert(self.stack_spec() == pre.stack_spec());
                            }
                        },
                        _ => {
                            self.runtime_fault(offset, String::from_str("Operand must be number."));
                            return Some(Err(InterpretResult::InterpretRuntimeError));
                        },
                    }
                },
                OpCode::OpNot => {
                    if self.stack.len() == 0 {
                        self.runtime_fault(offset, String::from_str("Operands missing."));
                        return Some(Err(InterpretResult::InterpretRuntimeError));
                    }
                    let v = match self.stack.pop() {
                        Some(v) => v,
                        None => Value::Nil,
                    };
                    let falsey = self.is_falsey(&v);
                    self.stack.push(Value::Bool(falsey));
                    self.ip = offset + 1;
                    proof {
                        assert(self.stack@ =~= pre.stack@.drop_last().push(
                            Value::Bool(is_falsey_spec(pre.stack@.last())),
                        ));
                        assert(self.state_spec() == pre.state_spec());
                        assert(self.stack_spec() == pre.stack_spec());
                    }
                },
                OpCode::OpEqual => {
                    if self.stack.len() < 2 {
                        self.runtime_fault(offset, String::from_str("Operands missing."));
                        return Some(Err(InterpretResult::InterpretRuntimeError));
                    }
                    let a = match self.stack.pop() {
                        Some(v) => v,
                        None => Value::Nil,
                    };
                    let b = match self.stack.pop() {
                        Some(v) => v,
                        None => Value::Nil,
                    };
                    let equal = self.values_equal(a, b);
                    self.stack.push(Value::Bool(equal));
                    self.ip = offset + 1;
                    proof {
                        assert(self.stack@ =~= pre.stack@.drop_last().drop_last().push(
                            Value::Bool(
                                value_eq_spec(pre.stack@.last(), pre.stack@[pre.stack@.len() - 2]),
                            ),
                        ));
                        assert(self.state_spec() == pre.state_spec());
                        assert(self.stack_spec() == pre.stack_spec());
                    }
                },
                _ => {
                    // Binary arithmetic and comparison: both operands must
                    // be numbers; the right one is on top.
                    if self.stack.len() < 2 {
                        self.runtime_fault(offset, String::from_str("Operands missing."));
                        return Some(Err(InterpretResult::InterpretRuntimeError));
                    }
                    let right = self.stack[self.stack.len() - 1];
                    let left = self.stack[self.stack.len() - 2];
                    match (left, right) {
                        (Value::Num(l), Value::Num(n)) => {
                            self.stack.pop();
                            self.stack.pop();
                            let result = match op {
                                OpCode::OpAdd => Value::Num(num_add(l, n)),
                                OpCode::OpSubtract => Value::Num(num_sub(l, n)),
                                OpCode::OpMultiply => Value::Num(num_mul(l, n)),
                                OpCode::OpDivide => Value::Num(num_div(l, n)),
                                OpCode::OpGreater => Value::Bool(num_gt(l, n)),
                                _ => Value::Bool(num_lt(l, n)),
                            };
                            self.stack.push(result);
                            self.ip = offset + 1;
                            proof {
                                assert(self.stack@ =~= pre.stack@.drop_last().drop_last().push(
                                    result,
                                ));
                                assert(self.state_spec() == pre.state_spec());
                        assert(self.stack_spec() == pre.stack_spec());
                            }
                        },
                        _ => {
                            self.runtime_fault(
                                offset,
                                String::from_str("Operands must be numbers."),
                            );
                            return Some(Err(InterpretResult::InterpretRuntimeError));
                        },
                    }
                },
            }
        }
        None
    }

    /// Executes the loaded chunk from the machine's present state, one
    /// step at a time. The result is exactly what the spec-level machine
    /// yields: the returned value on its terminating return instruction,
    /// or a runtime failure whose diagnostic names the fault and the
    /// blamed line — after which the operand stack is empty and the
    /// machine remains usable.
    pub fn run(&mut self) -> (r: Result<Option<Value>, InterpretResult>)
        requires
            old(self).wf(),
            old(self).chunk is Some,
        ensures
            final (self).wf(),
            final (self).chunk == old(self).chunk,
            old(self).diagnostics@.is_prefix_of(final (self).diagnostics@),
            (match (old(self).chunk, old(self).state_spec()) {
                (Some(c), RunOutcome::Done(v)) => r == Ok::<Option<Value>, InterpretResult>(v)
                    && final (self).diagnostics == old(self).diagnostics && final (self).stack@
                    == old(self).stack_spec(),
                (Some(c), RunOutcome::Fault(offset, kind)) => r == Err::<
                    Option<Value>,
                    InterpretResult,
                >(InterpretResult::InterpretRuntimeError) && final (self).stack@.len() == 0
                    && final (self).diagnostics@.len() == old(self).diagnostics@.len() + 1
                    && final (self).diagnostics@.last()@ == fault_diag(c, offset, kind),
                (None, _) => true,
            }),
    {
        loop
            invariant
                self.wf(),
                self.chunk == old(self).chunk,
                self.chunk is Some,
                self.diagnostics == old(self).diagnostics,
                self.state_spec() == old(self).state_spec(),
                self.stack_spec() == old(self).stack_spec(),
            decreases self.scode().len() + 1 - self.ip,
        {
            match self.step() {
                Some(out) => {
                    return out;
                },
                None => {},
            }
        }
    }

    /// Compiles one expression and runs it from a clean stack, returning
    /// the value its return instruction reported — and on success there
    /// always is one: a compiled expression cannot finish silently. A
    /// compile failure leaves the loaded chunk alone; a runtime failure
    /// leaves the stack empty. Diagnostics from either phase are collected
    /// on the machine.
    pub fn interpret_source(&mut self, source: String) -> (r: Result<
        Option<Value>,
        InterpretResult,
    >)
        requires
            old(self).wf(),
            source@.len() + 2 < 0x8000_0000,
        ensures
            final (self).wf(),
            match r {
                Ok(v) => v is Some && (final (self).chunk matches Some(c) && run_spec(
                    c.code@,
                    c.constants@,
                    0,
                    Seq::<Value>::empty(),
                ) == RunOutcome::Done(v)),
                Err(InterpretResult::InterpretCompileError) => final (self).chunk == old(
                    self,
                ).chunk && final (self).diagnostics@.len() > old(self).diagnostics@.len(),
                Err(InterpretResult::InterpretRuntimeError) => final (self).stack@.len() == 0 && (
                final (self).chunk matches Some(c) && (match run_spec(
                    c.code@,
                    c.constants@,
                    0,
                    Seq::<Value>::empty(),
                ) {
                    RunOutcome::Fault(offset, kind) => (kind == FaultKind::NotNumbers || kind
                        == FaultKind::NotNumber) && final (self).diagnostics@.len() == old(
                        self,
                    ).diagnostics@.len() + 1 && final (self).diagnostics@.last()@ == fault_diag(
                        c,
                        offset,
                        kind,
                    ),
                    _ => false,
                })),
            },
    {
        self.reset_stack();
        let mut compiler = Compiler::new(source);
        let chunk = Chunk::new();
        let compiled = match compiler.to_chunk(chunk) {
            Some(c) => c,
            None => {
                self.diagnostics.append(&mut compiler.diagnostics);
                return Err(InterpretResult::InterpretCompileError);
            },
        };
        proof {
            lemma_expression_code_reports(compiled.code@, compiled.constants@);
        }
        self.chunk = Some(compiled);
        self.ip = 0;
        proof {
            assert(self.stack@ =~= Seq::<Value>::empty());
        }
        self.run()
    }

    /// Loads a serialized chunk (see the stream format in `encode`) and
    /// runs it from a clean stack: on a well-formed stream that fits the
    /// pool, the outcome is exactly what the spec-level machine gives on
    /// the reconstructed chunk. A malformed or oversized stream is a
    /// runtime failure, reported before anything executes; any failure
    /// leaves the stack empty.
    pub fn interpret_op_code(&mut self, op_code: Vec<u8>) -> (r: Result<
        Option<Value>,
        InterpretResult,
    >)
        requires
            old(self).wf(),
        ensures
            final (self).wf(),
            match r {
                Ok(v) => (decode_instrs(op_code@) matches Some(ins) && const_count(ins) <= 256
                    && run_spec(
                    code_of_instrs(ins, 0),
                    consts_of_instrs(ins),
                    0,
                    Seq::<Value>::empty(),
                ) == RunOutcome::Done(v)) && (final (self).chunk matches Some(c) && run_spec(
                    c.code@,
                    c.constants@,
                    0,
                    Seq::<Value>::empty(),
                ) == RunOutcome::Done(v)),
                Err(InterpretResult::InterpretCompileError) => false,
                Err(InterpretResult::InterpretRuntimeError) => final (self).stack@.len() == 0 && (
                decode_instrs(op_code@) is None || (decode_instrs(op_code@) matches Some(ins) && (
                const_count(ins) > 256 || run_spec(
                    code_of_instrs(ins, 0),
                    consts_of_instrs(ins),
                    0,
                    Seq::<Value>::empty(),
                ) matches RunOutcome::Fault(_, _)))),
            },
    {
        self.reset_stack();
        let loaded = match bytes_to_chunk(&op_code) {
            Ok(c) => c,
            Err(e) => {
                self.diagnostics.push(e);
                return Err(InterpretResult::InterpretRuntimeError);
            },
        };
        self.chunk = Some(loaded);
        self.ip = 0;
        proof {
            assert(self.stack@ =~= Seq::<Value>::empty());
        }
        self.run()
    }
}

/// Equality is kind-sensitive: values of different kinds are never equal —
/// a boolean never equals a number, and nil equals only nil.
pub proof fn lemma_value_eq_kind_sensitive(a: Value, b: Value)
    requires
        a.kind() != b.kind(),
    ensures
        !value_eq_spec(a, b),
{
}

/// Equality is reflexive on nil and booleans. Numbers are excluded: IEEE
/// equality denies a NaN equal to itself.
pub proof fn lemma_value_eq_reflexive_non_numeric(a: Value)
    requires
        a.kind() != ValueType::ValNumber,
    ensures
        value_eq_spec(a, a),
{
}

/// Falsiness picks out exactly nil and false: true and every number — the
/// number zero included — are truthy.
pub proof fn lemma_falsey_cases()
    ensures
        is_falsey_spec(Value::Nil),
        is_falsey_spec(Value::Bool(false)),
        !is_falsey_spec(Value::Bool(true)),
        forall|n: u64| !is_falsey_spec(Value::Num(n)),
{
}

} // verus!
