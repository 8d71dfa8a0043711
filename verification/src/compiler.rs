//! The single-pass expression compiler: a Pratt (precedence-climbing)
//! parser over the scanner's token stream that emits bytecode into a chunk.
//! Errors are collected as diagnostics and suppressed while in panic mode;
//! a sticky error flag makes the whole compilation report failure.

use vstd::prelude::*;
use vstd::string::*;

use crate::chunk::Chunk;
use crate::chunk::OpCode;
use crate::chunk::code_wf;
use crate::chunk::code_halts_from;
use crate::chunk::op_byte;
use crate::chunk::lemma_code_wf_append_simple;
use crate::chunk::lemma_code_wf_append_constant;
use crate::chunk::lemma_code_wf_nconsts_mono;
use crate::chunk::lemma_code_halts_after_return;
use crate::chunk::seg_depth;
use crate::chunk::chunk_extended;
use crate::chunk::expr_segment;
use crate::chunk::infix_segment;
use crate::chunk::is_literal_byte;
use crate::chunk::is_unary_byte;
use crate::chunk::is_binary_byte;
use crate::chunk::lemma_seg_push_literal;
use crate::chunk::lemma_seg_push_constant;
use crate::chunk::lemma_seg_unary;
use crate::chunk::lemma_seg_binary;
use crate::chunk::lemma_seg_concat;
use crate::chunk::lemma_seg_extend;
use crate::numeric::num_from_str;
use crate::numeric::parse_bits;
use crate::scanner::Scanner;
use crate::scanner::SpecToken;
use crate::scanner::Token;
use crate::scanner::TokenType;
use crate::scanner::scan_spec;
use crate::text::dec_str;
use crate::text::dec_str_signed;
use crate::text::i32_dec;
use crate::text::u64_dec;
use crate::value::Value;

verus! {

/// The binding strength of an operator, a strictly ordered scale.
#[derive(PartialEq, Eq, Structural, Debug, Clone, Copy)]
pub enum Precedence {
    PrecNone,
    PrecAssignment,
    PrecOr,
    PrecAnd,
    PrecEquality,
    PrecComparison,
    PrecTerm,
    PrecFactor,
    PrecUnary,
    PrecCall,
    PrecPrimary,
}

/// The rank of a precedence on the scale.
pub open spec fn prec_level(p: Precedence) -> int {
    match p {
        Precedence::PrecNone => 0,
        Precedence::PrecAssignment => 1,
        Precedence::PrecOr => 2,
        Precedence::PrecAnd => 3,
        Precedence::PrecEquality => 4,
        Precedence::PrecComparison => 5,
        Precedence::PrecTerm => 6,
        Precedence::PrecFactor => 7,
        Precedence::PrecUnary => 8,
        Precedence::PrecCall => 9,
        Precedence::PrecPrimary => 10,
    }
}

/// The precedence of a rank.
pub open spec fn prec_of_level(n: int) -> Precedence {
    if n == 0 {
        Precedence::PrecNone
    } else if n == 1 {
        Precedence::PrecAssignment
    } else if n == 2 {
        Precedence::PrecOr
    } else if n == 3 {
        Precedence::PrecAnd
    } else if n == 4 {
        Precedence::PrecEquality
    } else if n == 5 {
        Precedence::PrecComparison
    } else if n == 6 {
        Precedence::PrecTerm
    } else if n == 7 {
        Precedence::PrecFactor
    } else if n == 8 {
        Precedence::PrecUnary
    } else if n == 9 {
        Precedence::PrecCall
    } else {
        Precedence::PrecPrimary
    }
}

/// The rank of a precedence, as a byte.
pub fn prec_byte(p: Precedence) -> (r: u8)
    ensures
        r as int == prec_level(p),
{
    match p {
        Precedence::PrecNone => 0,
        Precedence::PrecAssignment => 1,
        Precedence::PrecOr => 2,
        Precedence::PrecAnd => 3,
        Precedence::PrecEquality => 4,
        Precedence::PrecComparison => 5,
        Precedence::PrecTerm => 6,
        Precedence::PrecFactor => 7,
        Precedence::PrecUnary => 8,
        Precedence::PrecCall => 9,
        Precedence::PrecPrimary => 10,
    }
}

/// The diagnostic for a byte that encodes no precedence.
pub open spec fn bad_prec_msg(byte: u8) -> Seq<char> {
    "Invalid conversion to precedence from byte: '"@ + dec_str(byte as nat)
        + "'\nPrecedence doesn't exist."@
}

/// Decodes a precedence rank.
pub fn byte_to_prec(byte: u8) -> (r: Result<Precedence, String>)
    ensures
        match r {
            Ok(p) => byte <= 10 && p == prec_of_level(byte as int) && prec_level(p) == byte as int,
            Err(e) => byte > 10 && e@ == bad_prec_msg(byte),
        },
{
    match byte {
        0 => Ok(Precedence::PrecNone),
        1 => Ok(Precedence::PrecAssignment),
        2 => Ok(Precedence::PrecOr),
        3 => Ok(Precedence::PrecAnd),
        4 => Ok(Precedence::PrecEquality),
        5 => Ok(Precedence::PrecComparison),
        6 => Ok(Precedence::PrecTerm),
        7 => Ok(Precedence::PrecFactor),
        8 => Ok(Precedence::PrecUnary),
        9 => Ok(Precedence::PrecCall),
        10 => Ok(Precedence::PrecPrimary),
        _ => {
            let mut msg = String::from_str("Invalid conversion to precedence from byte: '");
            msg.append(u64_dec(byte as u64).as_str());
            msg.append("'\nPrecedence doesn't exist.");
            Err(msg)
        },
    }
}

/// A parse action of the Pratt parser, dispatched by a match rather than a
/// function pointer.
#[derive(PartialEq, Eq, Structural, Debug, Clone, Copy)]
pub enum ParseAct {
    Grouping,
    Unary,
    Binary,
    Number,
    Literal,
}

/// One row of the parse table: the prefix and infix actions a token type
/// triggers, and the binding precedence of its infix form.
#[derive(Debug, Clone, Copy)]
pub struct ParseRule {
    pub prefix: Option<ParseAct>,
    pub infix: Option<ParseAct>,
    pub precedence: Precedence,
}

/// The fixed parse table, one rule per token type.
pub open spec fn rule_of(ttype: TokenType) -> ParseRule {
    match ttype {
        TokenType::LeftParen => ParseRule {
            prefix: Some(ParseAct::Grouping),
            infix: None,
            precedence: Precedence::PrecNone,
        },
        TokenType::Minus => ParseRule {
            prefix: Some(ParseAct::Unary),
            infix: Some(ParseAct::Binary),
            precedence: Precedence::PrecTerm,
        },
        TokenType::Plus => ParseRule {
            prefix: None,
            infix: Some(ParseAct::Binary),
            precedence: Precedence::PrecTerm,
        },
        TokenType::Slash => ParseRule {
            prefix: None,
            infix: Some(ParseAct::Binary),
            precedence: Precedence::PrecFactor,
        },
        TokenType::Star => ParseRule {
            prefix: None,
            infix: Some(ParseAct::Binary),
            precedence: Precedence::PrecFactor,
        },
        TokenType::Bang => ParseRule {
            prefix: Some(ParseAct::Unary),
            infix: None,
            precedence: Precedence::PrecNone,
        },
        TokenType::BangEqual => ParseRule {
            prefix: None,
            infix: Some(ParseAct::Binary),
            precedence: Precedence::PrecEquality,
        },
        TokenType::EqualEqual => ParseRule {
            prefix: None,
            infix: Some(ParseAct::Binary),
            precedence: Precedence::PrecEquality,
        },
        TokenType::Greater => ParseRule {
            prefix: None,
            infix: Some(ParseAct::Binary),
            precedence: Precedence::PrecComparison,
        },
        TokenType::GreaterEqual => ParseRule {
            prefix: None,
            infix: Some(ParseAct::Binary),
            precedence: Precedence::PrecComparison,
        },
        TokenType::Less => ParseRule {
            prefix: None,
            infix: Some(ParseAct::Binary),
            precedence: Precedence::PrecComparison,
        },
        TokenType::LessEqual => ParseRule {
            prefix: None,
            infix: Some(ParseAct::Binary),
            precedence: Precedence::PrecComparison,
        },
        TokenType::Number => ParseRule {
            prefix: Some(ParseAct::Number),
            infix: None,
            precedence: Precedence::PrecNone,
        },
        TokenType::False => ParseRule {
            prefix: Some(ParseAct::Literal),
            infix: None,
            precedence: Precedence::PrecNone,
        },
        TokenType::Nil => ParseRule {
            prefix: Some(ParseAct::Literal),
            infix: None,
            precedence: Precedence::PrecNone,
        },
        TokenType::True => ParseRule {
            prefix: Some(ParseAct::Literal),
            infix: None,
            precedence: Precedence::PrecNone,
        },
        _ => ParseRule { prefix: None, infix: None, precedence: Precedence::PrecNone },
    }
}

/// The compiler's scanning state as the spec-level parser carries it: the
/// cursor and line of the scanner, and the lookahead token.
pub struct PState {
    pub pos: int,
    pub line: int,
    pub tok: SpecToken,
}

/// What a spec-level parse step yields: the state after it, the code it
/// emitted and the constants it interned — or the diagnostic of the first
/// error.
pub enum PRes {
    POk { st: PState, code: Seq<u8>, consts: Seq<Value> },
    PErr { diag: Seq<char> },
}

/// The diagnostic reported at a spec-level token.
pub open spec fn sdiag(t: SpecToken, msg: Seq<char>) -> Seq<char> {
    "[Line "@ + dec_str_signed(t.line) + "] Error"@ + (if t.ttype == TokenType::EOF {
        " at end"@
    } else if t.ttype == TokenType::Error {
        Seq::<char>::empty()
    } else {
        " at '"@ + t.lexeme + "'"@
    }) + ": "@ + msg
}

/// One spec-level advance: scans the next token; an error token is the
/// unit's first diagnostic.
pub open spec fn padvance(s: Seq<char>, st: PState) -> Result<PState, Seq<char>> {
    let nt = scan_spec(s, st.pos, st.line);
    if nt.ttype == TokenType::Error {
        Err(sdiag(nt, nt.lexeme))
    } else {
        Ok(PState { pos: nt.pos, line: nt.line, tok: nt })
    }
}

/// The number prefix action, spec-level: the literal's value is interned
/// and loaded; an unparsable literal or a full pool is the first error,
/// reported at the lookahead.
pub open spec fn p_number(lexeme: Seq<char>, st: PState, k: int) -> PRes {
    match parse_bits(lexeme) {
        None => PRes::PErr { diag: sdiag(st.tok, "Unable to parse value to number."@) },
        Some(bits) => {
            if k >= 256 {
                PRes::PErr { diag: sdiag(st.tok, "Too many constants in one chunk."@) }
            } else {
                PRes::POk {
                    st,
                    code: seq![op_byte(OpCode::OpConstant), k as u8],
                    consts: seq![Value::Num(bits)],
                }
            }
        },
    }
}

/// The literal prefix action, spec-level.
pub open spec fn p_literal(op: TokenType, st: PState) -> PRes {
    PRes::POk {
        st,
        code: (if op == TokenType::False {
            seq![op_byte(OpCode::OpFalse)]
        } else if op == TokenType::True {
            seq![op_byte(OpCode::OpTrue)]
        } else {
            seq![op_byte(OpCode::OpNil)]
        }),
        consts: Seq::<Value>::empty(),
    }
}

/// Whether a lookahead token still carries input to consume.
pub open spec fn pending(t: Option<Token>) -> bool {
    match t {
        Some(tok) => tok.ttype != TokenType::EOF,
        None => false,
    }
}

/// The diagnostic the compiler reports at a token: the line, where the
/// token stood, and the message.
pub open spec fn diag_of(t: Token, msg: Seq<char>) -> Seq<char> {
    "[Line "@ + dec_str_signed(t.line as int) + "] Error"@ + (if t.ttype == TokenType::EOF {
        " at end"@
    } else if t.ttype == TokenType::Error {
        Seq::<char>::empty()
    } else {
        " at '"@ + t.lexeme@ + "'"@
    }) + ": "@ + msg
}

/// Compiler state for one compilation unit: the token window, the chunk
/// being filled, the sticky error flag with its panic mode, the scanner,
/// and the diagnostics collected so far.
#[derive(Debug)]
pub struct Compiler {
    pub current: Option<Token>,
    pub previous: Option<Token>,
    pub compiling_chunk: Option<Chunk>,
    pub had_error: bool,
    pub panic_mode: bool,
    pub scanner: Scanner,
    pub diagnostics: Vec<String>,
}

impl Compiler {
    /// The compiler's invariant: the scanner is sound, the chunk under
    /// construction is well formed, panic mode only ever follows an error,
    /// and the error flag mirrors the collected diagnostics.
    pub open spec fn wf(self) -> bool {
        &&& self.scanner.wf()
        &&& match self.compiling_chunk {
            Some(c) => c.wf() && code_wf(c.code@, c.constants@.len() as int),
            None => true,
        }
        &&& (self.panic_mode ==> self.had_error)
        &&& (self.had_error <==> self.diagnostics@.len() > 0)
    }

    /// How much input is left to consume: the scanner's remaining text plus
    /// the lookahead token, if it still carries one. Every parsing step
    /// leaves this no larger, and consuming a token shrinks it.
    pub open spec fn measure(self) -> int {
        self.scanner.source@.len() - self.scanner.current + (if pending(self.current) {
            1int
        } else {
            0int
        })
    }

    /// What every parsing step preserves: the invariant, the source, the
    /// measure, the stickiness of the error flag, the diagnostics already
    /// collected, the chunk's presence, and the token window once filled.
    pub open spec fn step_ok(pre: Compiler, post: Compiler) -> bool {
        &&& post.wf()
        &&& post.scanner.source@ == pre.scanner.source@
        &&& post.scanner.text@ == pre.scanner.text@
        &&& post.measure() <= pre.measure()
        &&& (pre.had_error ==> post.had_error)
        &&& pre.diagnostics@.is_prefix_of(post.diagnostics@)
        &&& (post.compiling_chunk is Some <==> pre.compiling_chunk is Some)
    }

    /// What a prefix parse action guarantees of the chunk: emission only
    /// appends, and — as long as no error has struck — what it appended is
    /// one whole expression's code.
    pub open spec fn emits_expr(pre: Compiler, post: Compiler) -> bool {
        match (pre.compiling_chunk, post.compiling_chunk) {
            (Some(a), Some(b)) => chunk_extended(a, b) && (!post.had_error ==> expr_segment(
                b,
                a.code@.len() as int,
                b.code@.len() as int,
            )),
            (None, None) => true,
            _ => false,
        }
    }

    /// What one infix step guarantees of the chunk.
    pub open spec fn emits_infix(pre: Compiler, post: Compiler) -> bool {
        match (pre.compiling_chunk, post.compiling_chunk) {
            (Some(a), Some(b)) => chunk_extended(a, b) && (!post.had_error ==> infix_segment(
                b,
                a.code@.len() as int,
                b.code@.len() as int,
            )),
            (None, None) => true,
            _ => false,
        }
    }

    /// The compiler's scanning state as the spec-level parser sees it.
    pub open spec fn pstate_of(c: Compiler) -> PState {
        PState {
            pos: c.scanner.current as int,
            line: c.scanner.line as int,
            tok: match c.current {
                Some(t) => SpecToken {
                    ttype: t.ttype,
                    lexeme: t.lexeme@,
                    pos: c.scanner.current as int,
                    line: t.line as int,
                },
                None => SpecToken {
                    ttype: TokenType::EOF,
                    lexeme: Seq::<char>::empty(),
                    pos: 0,
                    line: 0,
                },
            },
        }
    }

    /// How many constants the chunk under construction holds.
    pub open spec fn kof(c: Compiler) -> int {
        match c.compiling_chunk {
            Some(a) => a.constants@.len() as int,
            None => 0,
        }
    }

    /// How an error-free parsing step realizes a spec-level parse result:
    /// on success the scanner, lookahead, emitted code and interned
    /// constants are exactly the spec's, with no diagnostic; on the spec's
    /// first error the sticky flag is set and that diagnostic — alone — is
    /// recorded.
    pub open spec fn follows(pre: Compiler, post: Compiler, r: PRes) -> bool {
        match (pre.compiling_chunk, post.compiling_chunk) {
            (Some(a), Some(b)) => match r {
                PRes::POk { st, code, consts } => {
                    &&& !post.had_error
                    &&& post.current is Some
                    &&& Self::pstate_of(post) == st
                    &&& b.code@ == a.code@ + code
                    &&& b.constants@ == a.constants@ + consts
                    &&& post.diagnostics@ == pre.diagnostics@
                },
                PRes::PErr { diag } => {
                    &&& post.had_error
                    &&& post.diagnostics@.len() == pre.diagnostics@.len() + 1
                    &&& post.diagnostics@.last()@ == diag
                },
            },
            _ => true,
        }
    }

    pub fn new(source: String) -> (r: Self)
        requires
            source@.len() + 2 < 0x8000_0000,
        ensures
            r.wf(),
            r.current is None,
            r.previous is None,
            r.compiling_chunk is None,
            !r.had_error,
            !r.panic_mode,
            r.diagnostics@.len() == 0,
            r.scanner.source@ == source@,
    {
        let scanner = Scanner::new(source);
        Compiler {
            current: None,
            previous: None,
            compiling_chunk: None,
            had_error: false,
            panic_mode: false,
            scanner,
            diagnostics: Vec::new(),
        }
    }

    /// Records a diagnostic at a token and enters panic mode; while already
    /// in panic mode, further diagnostics are swallowed.
    fn error_at(&mut self, token: Token, message: String)
        requires
            old(self).wf(),
        ensures
            final (self).wf(),
            final (self).scanner == old(self).scanner,
            final (self).current == old(self).current,
            final (self).previous == old(self).previous,
            final (self).compiling_chunk == old(self).compiling_chunk,
            final (self).had_error,
            old(self).panic_mode ==> final (self).diagnostics@ == old(self).diagnostics@,
            !old(self).panic_mode ==> final (self).diagnostics@.len() == old(
                self,
            ).diagnostics@.len() + 1 && final (self).diagnostics@.last()@ == diag_of(
                token,
                message@,
            ),
            old(self).diagnostics@.is_prefix_of(final (self).diagnostics@),
            final (self).panic_mode,
    {
        if self.panic_mode {
            return ;
        }
        let mut line = String::from_str("[Line ");
        line.append(i32_dec(token.line).as_str());
        line.append("] Error");
        match token.ttype {
            TokenType::EOF => {
                line.append(" at end");
            },
            TokenType::Error => {},
            _ => {
                line.append(" at '");
                line.append(token.lexeme.as_str());
                line.append("'");
            },
        }
        line.append(": ");
        line.append(message.as_str());
        proof {
            assert(line@ =~= diag_of(token, message@));
        }
        self.diagnostics.push(line);
        self.had_error = true;
        self.panic_mode = true;
    }

    /// Records a diagnostic at the lookahead token.
    fn error_at_current(&mut self, message: String)
        requires
            old(self).wf(),
        ensures
            final (self).wf(),
            final (self).scanner == old(self).scanner,
            final (self).current == old(self).current,
            final (self).previous == old(self).previous,
            final (self).compiling_chunk == old(self).compiling_chunk,
            old(self).had_error ==> final (self).had_error,
            old(self).current is Some ==> final (self).had_error,
            old(self).diagnostics@.is_prefix_of(final (self).diagnostics@),
            !old(self).panic_mode && old(self).current is Some ==> final (self).diagnostics@.len()
                == old(self).diagnostics@.len() + 1 && final (self).diagnostics@.last()@ == sdiag(
                Self::pstate_of(*old(self)).tok,
                message@,
            ),
    {
        let token = match &self.current {
            Some(t) => Token { ttype: t.ttype, lexeme: t.lexeme.clone(), line: t.line },
            None => {
                return ;
            },
        };
        let ghost msg = message@;
        let ghost tok = token;
        self.error_at(token, message);
        proof {
            assert(diag_of(tok, msg) =~= sdiag(Self::pstate_of(*old(self)).tok, msg));
        }
    }

    /// Pulls the next real token into the lookahead window, reporting every
    /// error token the scanner hands back along the way.
    fn advance(&mut self)
        requires
            old(self).wf(),
        ensures
            Self::step_ok(*old(self), *final (self)),
            final (self).previous == old(self).current,
            final (self).current is Some,
            final (self).compiling_chunk == old(self).compiling_chunk,
            pending(old(self).current) ==> final (self).measure() < old(self).measure(),
            ({
                let nt = scan_spec(
                    old(self).scanner.source@,
                    old(self).scanner.current as int,
                    old(self).scanner.line as int,
                );
                &&& (nt.ttype != TokenType::Error ==> final (self).had_error == old(self).had_error
                    && final (self).panic_mode == old(self).panic_mode && final (self).diagnostics@
                    == old(self).diagnostics@ && Self::pstate_of(*final (self)) == (PState {
                    pos: nt.pos,
                    line: nt.line,
                    tok: nt,
                }))
                &&& (nt.ttype == TokenType::Error && !old(self).panic_mode
                    ==> final (self).had_error
                    && final (self).diagnostics@.len() == old(self).diagnostics@.len() + 1
                    && final (self).diagnostics@.last()@ == sdiag(nt, nt.lexeme))
            }),
    {
        let ghost nt = scan_spec(
            self.scanner.source@,
            self.scanner.current as int,
            self.scanner.line as int,
        );
        self.previous = self.current.take();
        let ghost mut errored = false;
        loop
            invariant_except_break
                self.current is None,
                !errored ==> self.scanner == old(self).scanner
                    && self.diagnostics@ == old(self).diagnostics@
                    && self.had_error == old(self).had_error
                    && self.panic_mode == old(self).panic_mode,
            invariant
                self.wf(),
                self.scanner.source@ == old(self).scanner.source@,
                self.scanner.text@ == old(self).scanner.text@,
                self.previous == old(self).current,
                self.compiling_chunk == old(self).compiling_chunk,
                old(self).had_error ==> self.had_error,
                old(self).diagnostics@.is_prefix_of(self.diagnostics@),
                self.scanner.current >= old(self).scanner.current,
                nt == scan_spec(
                    old(self).scanner.source@,
                    old(self).scanner.current as int,
                    old(self).scanner.line as int,
                ),
                errored ==> nt.ttype == TokenType::Error && self.had_error && self.panic_mode
                    && (!old(self).panic_mode
                    ==> self.diagnostics@.len() == old(self).diagnostics@.len() + 1
                    && self.diagnostics@.last()@ == sdiag(nt, nt.lexeme)),
                errored && old(self).panic_mode ==> self.diagnostics@ == old(self).diagnostics@,
                !errored ==> self.had_error == old(self).had_error && self.panic_mode == old(
                    self,
                ).panic_mode && self.diagnostics@ == old(self).diagnostics@,
            ensures
                self.current is Some,
                pending(self.current) ==> self.scanner.current > old(self).scanner.current,
                (nt.ttype != TokenType::Error ==> self.had_error == old(self).had_error
                    && self.panic_mode == old(self).panic_mode
                    && self.diagnostics@ == old(self).diagnostics@
                    && Self::pstate_of(*self) == (PState {
                    pos: nt.pos,
                    line: nt.line,
                    tok: nt,
                })),
                (nt.ttype == TokenType::Error && !old(self).panic_mode ==> self.had_error
                    && self.diagnostics@.len() == old(self).diagnostics@.len() + 1
                    && self.diagnostics@.last()@ == sdiag(nt, nt.lexeme)),
            decreases self.scanner.source@.len() - self.scanner.current,
        {
            let token = self.scanner.scan_token();
            if token.get_type() != TokenType::Error {
                self.current = Some(token);
                break ;
            }
            let message = token.get_lexeme();
            proof {
                if !errored {
                    assert(token.ttype == nt.ttype && token.lexeme@ == nt.lexeme && token.line
                        as int == nt.line);
                }
            }
            self.error_at(token, message);
            proof {
                if !errored {
                    assert(diag_of(token, message@) =~= sdiag(nt, nt.lexeme));
                }
                errored = true;
            }
        }
    }

    /// Consumes the lookahead token when it has the expected type; else
    /// reports the given message at it.
    fn consume(&mut self, ttype: TokenType, message: String)
        requires
            old(self).wf(),
        ensures
            Self::step_ok(*old(self), *final (self)),
            final (self).compiling_chunk == old(self).compiling_chunk,
            old(self).current is Some ==> final (self).current is Some,
            old(self).previous is Some && old(self).current is Some ==> final (self).previous
                is Some,
            old(self).current matches Some(t) && t.ttype == ttype ==> final (self).previous == old(
                self,
            ).current,
            old(self).current is Some ==> ({
                let st = Self::pstate_of(*old(self));
                if st.tok.ttype == ttype {
                    match padvance(old(self).scanner.source@, st) {
                        Ok(st1) => final (self).had_error == old(self).had_error
                            && final (self).panic_mode == old(self).panic_mode
                            && final (self).diagnostics@ == old(self).diagnostics@
                            && Self::pstate_of(*final (self)) == st1,
                        Err(d) => final (self).had_error && (!old(self).panic_mode
                            ==> final (self).diagnostics@.len() == old(self).diagnostics@.len() + 1
                            && final (self).diagnostics@.last()@ == d),
                    }
                } else {
                    final (self).had_error && (!old(self).panic_mode
                        ==> final (self).diagnostics@.len() == old(self).diagnostics@.len() + 1
                        && final (self).diagnostics@.last()@ == sdiag(st.tok, message@))
                }
            }),
    {
        let matches_expected = match &self.current {
            Some(t) => t.get_type() == ttype,
            None => false,
        };
        if matches_expected {
            self.advance();
            return ;
        }
        self.error_at_current(message);
    }

    /// The parse rule of a token type.
    fn get_rule(&self, ttype: TokenType) -> (r: ParseRule)
        ensures
            r == rule_of(ttype),
    {
        match ttype {
            TokenType::LeftParen => ParseRule {
                prefix: Some(ParseAct::Grouping),
                infix: None,
                precedence: Precedence::PrecNone,
            },
            TokenType::Minus => ParseRule {
                prefix: Some(ParseAct::Unary),
                infix: Some(ParseAct::Binary),
                precedence: Precedence::PrecTerm,
            },
            TokenType::Plus => ParseRule {
                prefix: None,
                infix: Some(ParseAct::Binary),
                precedence: Precedence::PrecTerm,
            },
            TokenType::Slash => ParseRule {
                prefix: None,
                infix: Some(ParseAct::Binary),
                precedence: Precedence::PrecFactor,
            },
            TokenType::Star => ParseRule {
                prefix: None,
                infix: Some(ParseAct::Binary),
                precedence: Precedence::PrecFactor,
            },
            TokenType::Bang => ParseRule {
                prefix: Some(ParseAct::Unary),
                infix: None,
                precedence: Precedence::PrecNone,
            },
            TokenType::BangEqual => ParseRule {
                prefix: None,
                infix: Some(ParseAct::Binary),
                precedence: Precedence::PrecEquality,
            },
            TokenType::EqualEqual => ParseRule {
                prefix: None,
                infix: Some(ParseAct::Binary),
                precedence: Precedence::PrecEquality,
            },
            TokenType::Greater => ParseRule {
                prefix: None,
                infix: Some(ParseAct::Binary),
                precedence: Precedence::PrecComparison,
            },
            TokenType::GreaterEqual => ParseRule {
                prefix: None,
                infix: Some(ParseAct::Binary),
                precedence: Precedence::PrecComparison,
            },
            TokenType::Less => ParseRule {
                prefix: None,
                infix: Some(ParseAct::Binary),
                precedence: Precedence::PrecComparison,
            },
            TokenType::LessEqual => ParseRule {
                prefix: None,
                infix: Some(ParseAct::Binary),
                precedence: Precedence::PrecComparison,
            },
            TokenType::Number => ParseRule {
                prefix: Some(ParseAct::Number),
                infix: None,
                precedence: Precedence::PrecNone,
            },
            TokenType::False => ParseRule {
                prefix: Some(ParseAct::Literal),
                infix: None,
                precedence: Precedence::PrecNone,
            },
            TokenType::Nil => ParseRule {
                prefix: Some(ParseAct::Literal),
                infix: None,
                precedence: Precedence::PrecNone,
            },
            TokenType::True => ParseRule {
                prefix: Some(ParseAct::Literal),
                infix: None,
                precedence: Precedence::PrecNone,
            },
            _ => ParseRule { prefix: None, infix: None, precedence: Precedence::PrecNone },
        }
    }

    /// Appends one zero-operand instruction to the chunk, tagged with the
    /// line of the token that triggered the emission.
    fn emit_op(&mut self, op: OpCode)
        requires
            old(self).wf(),
            old(self).previous is Some,
            op != OpCode::OpConstant,
        ensures
            final (self).wf(),
            final (self).scanner == old(self).scanner,
            final (self).current == old(self).current,
            final (self).previous == old(self).previous,
            final (self).had_error == old(self).had_error,
            final (self).panic_mode == old(self).panic_mode,
            final (self).diagnostics == old(self).diagnostics,
            match (old(self).compiling_chunk, final (self).compiling_chunk, old(self).previous) {
                (Some(a), Some(b), Some(t)) => b.code@ == a.code@.push(op_byte(op)) && b.constants@
                    == a.constants@ && b.lines@ == a.lines@.push(t.line),
                (None, None, Some(t)) => true,
                _ => false,
            },
    {
        let line = match &self.previous {
            Some(t) => t.get_line(),
            None => 0,
        };
        match self.compiling_chunk.take() {
            Some(mut chunk) => {
                proof {
                    crate::chunk::lemma_op_byte_roundtrip(op, 0);
                    lemma_code_wf_append_simple(
                        chunk.code@,
                        chunk.constants@.len() as int,
                        op_byte(op),
                        0,
                    );
                }
                chunk.write_instruction(op, line);
                self.compiling_chunk = Some(chunk);
            },
            None => {},
        }
    }

    /// Interns a value in the constant pool and emits the instruction that
    /// loads it. A full pool is a compile error, reported at the lookahead
    /// token; a missing chunk likewise.
    fn emit_constant(&mut self, value: Value)
        requires
            old(self).wf(),
            old(self).previous is Some,
        ensures
            final (self).wf(),
            final (self).scanner == old(self).scanner,
            final (self).current == old(self).current,
            final (self).previous == old(self).previous,
            old(self).had_error ==> final (self).had_error,
            old(self).diagnostics@.is_prefix_of(final (self).diagnostics@),
            match (old(self).compiling_chunk, final (self).compiling_chunk, old(self).previous) {
                (Some(a), Some(b), Some(t)) => if a.constants@.len() < 256 {
                    b.constants@ == a.constants@.push(value) && b.code@ == a.code@.push(
                        op_byte(OpCode::OpConstant),
                    ).push(a.constants@.len() as u8) && b.lines@ == a.lines@.push(t.line).push(
                        t.line,
                    ) && final (self).had_error == old(self).had_error && final (self).diagnostics
                        == old(self).diagnostics
                } else {
                    b == a && (old(self).current is Some ==> final (self).had_error) && (!old(
                        self,
                    ).panic_mode && old(self).current is Some ==> final (self).diagnostics@.len()
                        == old(self).diagnostics@.len() + 1 && final (self).diagnostics@.last()@
                        == sdiag(
                        Self::pstate_of(*old(self)).tok,
                        "Too many constants in one chunk."@,
                    ))
                },
                (None, None, Some(t)) => true,
                _ => false,
            },
    {
        let line = match &self.previous {
            Some(t) => t.get_line(),
            None => 0,
        };
        match self.compiling_chunk.take() {
            Some(mut chunk) => {
                if chunk.constants.len() >= 256 {
                    self.compiling_chunk = Some(chunk);
                    self.error_at_current(String::from_str("Too many constants in one chunk."));
                } else {
                    let ghost a = chunk;
                    let idx = chunk.add_constant(value);
                    proof {
                        lemma_code_wf_nconsts_mono(
                            chunk.code@,
                            a.constants@.len() as int,
                            chunk.constants@.len() as int,
                            0,
                        );
                        lemma_code_wf_append_constant(
                            chunk.code@,
                            chunk.constants@.len() as int,
                            idx,
                            0,
                        );
                    }
                    chunk.write_instruction(OpCode::OpConstant, line);
                    chunk.write_byte(idx, line);
                    self.compiling_chunk = Some(chunk);
                }
            },
            None => {
                self.error_at_current(String::from_str("No compiling chunk available."));
            },
        }
    }

    /// Terminates the chunk: emits the return instruction, after which
    /// execution of the chunk is guaranteed to halt.
    fn end(&mut self)
        requires
            old(self).wf(),
            old(self).previous is Some,
        ensures
            final (self).wf(),
            final (self).scanner == old(self).scanner,
            final (self).current == old(self).current,
            final (self).previous == old(self).previous,
            final (self).had_error == old(self).had_error,
            final (self).panic_mode == old(self).panic_mode,
            final (self).diagnostics == old(self).diagnostics,
            match (old(self).compiling_chunk, final (self).compiling_chunk) {
                (Some(a), Some(b)) => b.wf() && code_wf(b.code@, b.constants@.len() as int)
                    && code_halts_from(b.code@, 0) && b.constants@ == a.constants@ && b.code@
                    == a.code@.push(op_byte(OpCode::OpReturn)),
                (None, None) => true,
                _ => false,
            },
    {
        let ghost pre = self.compiling_chunk;
        self.emit_op(OpCode::OpReturn);
        proof {
            match pre {
                Some(a) => {
                    lemma_code_halts_after_return(a.code@, a.constants@.len() as int, 0);
                },
                None => {},
            }
        }
    }

    /// Parses one expression.
    fn expression(&mut self)
        requires
            old(self).wf(),
            old(self).current is Some,
        ensures
            Self::step_ok(*old(self), *final (self)),
            Self::emits_expr(*old(self), *final (self)),
            final (self).current is Some,
            final (self).previous is Some,
        decreases old(self).measure(), 1int,
    {
        self.parse_precedence(Precedence::PrecAssignment);
    }

    /// The prefix action of a number token: interns the literal's value and
    /// emits the load. A literal the numeric parser rejects is a compile
    /// error.
    fn number(&mut self)
        requires
            old(self).wf(),
            old(self).previous is Some,
            old(self).current is Some,
        ensures
            Self::step_ok(*old(self), *final (self)),
            Self::emits_expr(*old(self), *final (self)),
            final (self).current == old(self).current,
            final (self).previous == old(self).previous,
            !old(self).had_error && old(self).compiling_chunk is Some ==> Self::follows(
                *old(self),
                *final (self),
                p_number(
                    (match old(self).previous {
                        Some(t) => t.lexeme@,
                        None => Seq::<char>::empty(),
                    }),
                    Self::pstate_of(*old(self)),
                    Self::kof(*old(self)),
                ),
            ),
    {
        let lexeme = match &self.previous {
            Some(t) => t.get_lexeme(),
            None => {
                return ;
            },
        };
        match num_from_str(lexeme.as_str()) {
            Some(bits) => {
                self.emit_constant(Value::from_number(bits));
                proof {
                    let post = *self;
                    if !post.had_error {
                        match (old(self).compiling_chunk, post.compiling_chunk) {
                            (Some(a), Some(b)) => {
                                let start = a.code@.len() as int;
                                let n = b.constants@.len() as int;
                                assert(b.code@[start] == op_byte(OpCode::OpConstant));
                                assert((b.code@[start + 1] as int) < n);
                                assert forall|d: int| 0 <= d implies #[trigger] seg_depth(
                                    b.code@,
                                    n,
                                    start,
                                    start + 2,
                                    d,
                                ) == Some(d + 1) by {
                                    lemma_seg_push_constant(b.code@, n, start, d);
                                };
                                assert(expr_segment(b, start, b.code@.len() as int));
                            },
                            _ => {},
                        }
                    }
                    if !old(self).had_error {
                        let post2 = *self;
                        match (old(self).compiling_chunk, post2.compiling_chunk) {
                            (Some(a), Some(b)) => {
                                if a.constants@.len() < 256 {
                                    assert(b.code@ =~= a.code@ + seq![
                                        op_byte(OpCode::OpConstant),
                                        a.constants@.len() as u8,
                                    ]);
                                    assert(b.constants@ =~= a.constants@ + seq![
                                        Value::Num(bits),
                                    ]);
                                }
                            },
                            _ => {},
                        }
                    }
                }
            },
            None => {
                self.error_at_current(String::from_str("Unable to parse value to number."));
            },
        }
    }

    /// The prefix action of `true`, `false` and `nil`: emits the matching
    /// push instruction.
    fn literal(&mut self)
        requires
            old(self).wf(),
            old(self).previous matches Some(t) && (t.ttype == TokenType::False || t.ttype
                == TokenType::True || t.ttype == TokenType::Nil),
        ensures
            Self::step_ok(*old(self), *final (self)),
            Self::emits_expr(*old(self), *final (self)),
            final (self).current == old(self).current,
            final (self).previous == old(self).previous,
            !old(self).had_error && old(self).compiling_chunk is Some && old(self).current
                is Some ==> Self::follows(
                *old(self),
                *final (self),
                p_literal(
                    (match old(self).previous {
                        Some(t) => t.ttype,
                        None => TokenType::Nil,
                    }),
                    Self::pstate_of(*old(self)),
                ),
            ),
    {
        let operator = match &self.previous {
            Some(t) => t.get_type(),
            None => {
                return ;
            },
        };
        match operator {
            TokenType::False => self.emit_op(OpCode::OpFalse),
            TokenType::True => self.emit_op(OpCode::OpTrue),
            TokenType::Nil => self.emit_op(OpCode::OpNil),
            _ => {},
        }
        proof {
            let post2 = *self;
            match (old(self).compiling_chunk, post2.compiling_chunk) {
                (Some(a), Some(b)) => {
                    assert(b.constants@ =~= a.constants@ + Seq::<Value>::empty());
                    if operator == TokenType::False {
                        assert(b.code@ =~= a.code@ + seq![op_byte(OpCode::OpFalse)]);
                    } else if operator == TokenType::True {
                        assert(b.code@ =~= a.code@ + seq![op_byte(OpCode::OpTrue)]);
                    } else {
                        assert(b.code@ =~= a.code@ + seq![op_byte(OpCode::OpNil)]);
                    }
                },
                _ => {},
            }
        }
        proof {
            let post = *self;
            match (old(self).compiling_chunk, post.compiling_chunk) {
                (Some(a), Some(b)) => {
                    let start = a.code@.len() as int;
                    let n = b.constants@.len() as int;
                    assert(is_literal_byte(b.code@[start]));
                    assert forall|d: int| 0 <= d implies #[trigger] seg_depth(
                        b.code@,
                        n,
                        start,
                        start + 1,
                        d,
                    ) == Some(d + 1) by {
                        lemma_seg_push_literal(b.code@, n, start, d);
                    };
                    assert(expr_segment(b, start, b.code@.len() as int));
                },
                _ => {},
            }
        }
    }

    /// The prefix action of `(`: parses the grouped expression and demands
    /// the closing parenthesis.
    fn grouping(&mut self)
        requires
            old(self).wf(),
            old(self).current is Some,
        ensures
            Self::step_ok(*old(self), *final (self)),
            Self::emits_expr(*old(self), *final (self)),
            final (self).current is Some,
            final (self).previous is Some,
        decreases old(self).measure(), 2int,
    {
        self.expression();
        self.consume(TokenType::RightParen, String::from_str("Expect ')' after expression."));
    }

    /// The prefix action of a unary operator: parses its operand at unary
    /// precedence, then emits the transform.
    fn unary(&mut self)
        requires
            old(self).wf(),
            old(self).previous matches Some(t) && (t.ttype == TokenType::Minus || t.ttype
                == TokenType::Bang),
            old(self).current is Some,
        ensures
            Self::step_ok(*old(self), *final (self)),
            Self::emits_expr(*old(self), *final (self)),
            final (self).current is Some,
            final (self).previous is Some,
        decreases old(self).measure(), 2int,
    {
        let operator = match &self.previous {
            Some(t) => t.get_type(),
            None => {
                return ;
            },
        };
        self.parse_precedence(Precedence::PrecUnary);
        let ghost mid = *self;
        match operator {
            TokenType::Minus => self.emit_op(OpCode::OpNegate),
            TokenType::Bang => self.emit_op(OpCode::OpNot),
            _ => {},
        }
        proof {
            let post = *self;
            if !post.had_error {
                match (old(self).compiling_chunk, mid.compiling_chunk, post.compiling_chunk) {
                    (Some(a), Some(m), Some(b)) => {
                        let start = a.code@.len() as int;
                        let mlen = m.code@.len() as int;
                        let nm = m.constants@.len() as int;
                        let nb = b.constants@.len() as int;
                        assert(is_unary_byte(b.code@[mlen]));
                        assert forall|d: int| 0 <= d implies #[trigger] seg_depth(
                            b.code@,
                            nb,
                            start,
                            mlen + 1,
                            d,
                        ) == Some(d + 1) by {
                            assert(seg_depth(m.code@, nm, start, mlen, d) == Some(d + 1));
                            lemma_seg_extend(m.code@, nm, b.code@, nb, start, mlen, d);
                            lemma_seg_unary(b.code@, nb, mlen, d + 1);
                            lemma_seg_concat(b.code@, nb, start, mlen, mlen + 1, d, d + 1);
                        };
                        assert(expr_segment(b, start, b.code@.len() as int));
                    },
                    _ => {},
                }
            }
        }
    }

    /// The infix action of a binary operator: parses the right operand one
    /// level tighter (left associativity), then emits the operation.
    fn binary(&mut self)
        requires
            old(self).wf(),
            old(self).previous matches Some(t) && (t.ttype == TokenType::Plus || t.ttype
                == TokenType::Minus || t.ttype == TokenType::Star || t.ttype == TokenType::Slash
                || t.ttype == TokenType::BangEqual || t.ttype == TokenType::EqualEqual || t.ttype
                == TokenType::Greater || t.ttype == TokenType::GreaterEqual || t.ttype
                == TokenType::Less || t.ttype == TokenType::LessEqual),
            old(self).current is Some,
        ensures
            Self::step_ok(*old(self), *final (self)),
            Self::emits_infix(*old(self), *final (self)),
            final (self).current is Some,
            final (self).previous is Some,
        decreases old(self).measure(), 2int,
    {
        let operator = match &self.previous {
            Some(t) => t.get_type(),
            None => {
                return ;
            },
        };
        // The operation the operator stands for; a negated comparison is a
        // comparison followed by a logical not.
        let (first, second): (OpCode, Option<OpCode>) = match operator {
            TokenType::Plus => (OpCode::OpAdd, None),
            TokenType::Minus => (OpCode::OpSubtract, None),
            TokenType::Star => (OpCode::OpMultiply, None),
            TokenType::Slash => (OpCode::OpDivide, None),
            TokenType::BangEqual => (OpCode::OpEqual, Some(OpCode::OpNot)),
            TokenType::EqualEqual => (OpCode::OpEqual, None),
            TokenType::Greater => (OpCode::OpGreater, None),
            TokenType::GreaterEqual => (OpCode::OpLess, Some(OpCode::OpNot)),
            TokenType::Less => (OpCode::OpLess, None),
            TokenType::LessEqual => (OpCode::OpGreater, Some(OpCode::OpNot)),
            _ => (OpCode::OpAdd, None),
        };
        let rule = self.get_rule(operator);
        match byte_to_prec(prec_byte(rule.precedence) + 1) {
            Ok(prec) => {
                self.parse_precedence(prec);
                let ghost mid = *self;
                self.emit_op(first);
                match second {
                    Some(op2) => self.emit_op(op2),
                    None => {},
                }
                proof {
                    let post = *self;
                    if !post.had_error {
                        match (old(self).compiling_chunk, mid.compiling_chunk, post.compiling_chunk) {
                            (Some(a), Some(m), Some(b)) => {
                                let start = a.code@.len() as int;
                                let mlen = m.code@.len() as int;
                                let blen = b.code@.len() as int;
                                let nm = m.constants@.len() as int;
                                let nb = b.constants@.len() as int;
                                assert(is_binary_byte(b.code@[mlen]));
                                assert forall|d: int| 1 <= d implies #[trigger] seg_depth(
                                    b.code@,
                                    nb,
                                    start,
                                    blen,
                                    d,
                                ) == Some(d) by {
                                    assert(seg_depth(m.code@, nm, start, mlen, d) == Some(d + 1));
                                    lemma_seg_extend(m.code@, nm, b.code@, nb, start, mlen, d);
                                    lemma_seg_binary(b.code@, nb, mlen, d + 1);
                                    lemma_seg_concat(b.code@, nb, start, mlen, mlen + 1, d, d + 1);
                                    if mlen + 1 < blen {
                                        assert(is_unary_byte(b.code@[mlen + 1]));
                                        lemma_seg_unary(b.code@, nb, mlen + 1, d);
                                        lemma_seg_concat(b.code@, nb, start, mlen + 1, mlen + 2, d, d);
                                    }
                                };
                                assert(infix_segment(b, start, blen));
                            },
                            _ => {},
                        }
                    }
                }
            },
            Err(message) => {
                self.error_at_current(message);
            },
        }
    }

    /// The precedence-climbing loop: consumes one token and runs its prefix
    /// action (a token without one cannot start an expression), then keeps
    /// consuming operators whose binding strength reaches `precedence`,
    /// running their infix actions.
    fn parse_precedence(&mut self, precedence: Precedence)
        requires
            old(self).wf(),
            old(self).current is Some,
            prec_level(precedence) >= 1,
        ensures
            Self::step_ok(*old(self), *final (self)),
            Self::emits_expr(*old(self), *final (self)),
            final (self).current is Some,
            final (self).previous is Some,
        decreases old(self).measure(), 0int,
    {
        self.advance();
        let prev_type = match &self.previous {
            Some(t) => t.get_type(),
            None => {
                return ;
            },
        };
        let rule = self.get_rule(prev_type);
        let act = match rule.prefix {
            Some(act) => act,
            None => {
                self.error_at_current(String::from_str("Expect expression."));
                return ;
            },
        };
        match act {
            ParseAct::Grouping => self.grouping(),
            ParseAct::Unary => {
                proof {
                    assert(prev_type == TokenType::Minus || prev_type == TokenType::Bang);
                }
                self.unary();
            },
            ParseAct::Number => self.number(),
            ParseAct::Literal => {
                proof {
                    assert(prev_type == TokenType::False || prev_type == TokenType::True
                        || prev_type == TokenType::Nil);
                }
                self.literal();
            },
            ParseAct::Binary => {
                self.error_at_current(String::from_str("Expect expression."));
                return ;
            },
        }
        loop
            invariant
                self.wf(),
                Self::step_ok(*old(self), *self),
                Self::emits_expr(*old(self), *self),
                self.current is Some,
                self.previous is Some,
                prec_level(precedence) >= 1,
            decreases self.measure(),
        {
            let cur_type = match &self.current {
                Some(t) => t.get_type(),
                None => {
                    break ;
                },
            };
            let cur_rule = self.get_rule(cur_type);
            if prec_byte(precedence) > prec_byte(cur_rule.precedence) {
                break ;
            }
            let ghost at_loop = *self;
            self.advance();
            let op_type = match &self.previous {
                Some(t) => t.get_type(),
                None => {
                    break ;
                },
            };
            let op_rule = self.get_rule(op_type);
            match op_rule.infix {
                Some(ParseAct::Binary) => {
                    proof {
                        assert(op_type == TokenType::Plus || op_type == TokenType::Minus || op_type
                            == TokenType::Star || op_type == TokenType::Slash || op_type
                            == TokenType::BangEqual || op_type == TokenType::EqualEqual || op_type
                            == TokenType::Greater || op_type == TokenType::GreaterEqual || op_type
                            == TokenType::Less || op_type == TokenType::LessEqual);
                    }
                    let ghost mid = *self;
                    self.binary();
                    proof {
                        let post = *self;
                        if !post.had_error {
                            match (old(self).compiling_chunk, mid.compiling_chunk, post.compiling_chunk) {
                                (Some(a), Some(m), Some(b)) => {
                                    let start = a.code@.len() as int;
                                    let mlen = m.code@.len() as int;
                                    let blen = b.code@.len() as int;
                                    let nm = m.constants@.len() as int;
                                    let nb = b.constants@.len() as int;
                                    assert forall|d: int| 0 <= d implies #[trigger] seg_depth(
                                        b.code@,
                                        nb,
                                        start,
                                        blen,
                                        d,
                                    ) == Some(d + 1) by {
                                        assert(seg_depth(m.code@, nm, start, mlen, d) == Some(
                                            d + 1,
                                        ));
                                        lemma_seg_extend(m.code@, nm, b.code@, nb, start, mlen, d);
                                        assert(seg_depth(b.code@, nb, mlen, blen, d + 1) == Some(
                                            d + 1,
                                        ));
                                        lemma_seg_concat(b.code@, nb, start, mlen, blen, d, d + 1);
                                    };
                                    assert(expr_segment(b, start, blen));
                                },
                                _ => {},
                            }
                        }
                    }
                },
                Some(_) => {
                    self.error_at_current(String::from_str("Expect expression."));
                },
                None => {
                    self.error_at_current(String::from_str("Expect expression."));
                },
            }
        }
    }

    /// Compiles one expression into the given chunk. On success the chunk
    /// comes back completed — well formed and terminated by a return
    /// instruction; on any compile error the chunk is withheld and the
    /// diagnostics say why.
    pub fn to_chunk(&mut self, chunk: Chunk) -> (r: Option<Chunk>)
        requires
            old(self).wf(),
            chunk.code@.len() == 0,
            chunk.constants@.len() == 0,
            chunk.lines@.len() == 0,
        ensures
            final (self).wf(),
            final (self).compiling_chunk is None,
            r is Some <==> !final (self).had_error,
            final (self).had_error <==> final (self).diagnostics@.len() > 0,
            r matches Some(c) ==> c.wf() && code_wf(c.code@, c.constants@.len() as int)
                && code_halts_from(c.code@, 0) && c.code@.len() >= 1 && c.code@[c.code@.len() - 1]
                == op_byte(OpCode::OpReturn) && seg_depth(
                c.code@,
                c.constants@.len() as int,
                0,
                c.code@.len() - 1,
                0,
            ) == Some(1int),
    {
        proof {
            assert(code_wf(chunk.code@, chunk.constants@.len() as int));
        }
        self.had_error = false;
        self.panic_mode = false;
        self.diagnostics = Vec::new();
        self.compiling_chunk = Some(chunk);
        self.advance();
        let ghost s1 = *self;
        self.expression();
        let ghost s2 = *self;
        self.consume(TokenType::EOF, String::from_str("Expect end of expression."));
        self.end();
        let result = self.compiling_chunk.take();
        let ghost res = result;
        proof {
            if !self.had_error {
                match (s1.compiling_chunk, s2.compiling_chunk, res) {
                    (Some(a), Some(m), Some(c)) => {
                        let mlen = m.code@.len() as int;
                        let nm = m.constants@.len() as int;
                        let nc = c.constants@.len() as int;
                        assert(seg_depth(m.code@, nm, 0, mlen, 0) == Some(1int));
                        lemma_seg_extend(m.code@, nm, c.code@, nc, 0, mlen, 0);
                        assert(c.code@[c.code@.len() - 1] == op_byte(OpCode::OpReturn));
                    },
                    _ => {},
                }
            }
        }
        if self.had_error {
            None
        } else {
            result
        }
    }
}

} // verus!
