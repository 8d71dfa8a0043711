//! Lexical analysis: turns source text into a stream of tokens, one call at
//! a time, skipping whitespace and comments. The scanner never fails hard:
//! anything unrecognizable comes back as an error token, and once the input
//! is exhausted it produces end-of-input tokens forever.

use vstd::prelude::*;
use vstd::string::*;

verus! {

/// The lexical category of a token.
#[derive(PartialEq, Eq, Structural, Debug, Clone, Copy)]
pub enum TokenType {
    // Single-character tokens.
    LeftParen,
    RightParen,
    LeftBrace,
    RightBrace,
    Comma,
    Dot,
    Minus,
    Plus,
    Semicolon,
    Slash,
    Star,
    // One or two character tokens.
    Bang,
    BangEqual,
    Equal,
    EqualEqual,
    Greater,
    GreaterEqual,
    Less,
    LessEqual,
    // Literals.
    Identifier,
    Str,
    Number,
    // Keywords.
    And,
    Class,
    Else,
    False,
    For,
    Fun,
    If,
    Nil,
    Or,
    Print,
    Return,
    Super,
    This,
    True,
    Var,
    While,
    // Others.
    Error,
    EOF,
}

/// Whether a character is an ASCII decimal digit.
pub open spec fn is_digit_char(c: char) -> bool {
    '0' <= c && c <= '9'
}

/// Whether a character may start or continue an identifier.
pub open spec fn is_alpha_char(c: char) -> bool {
    ('a' <= c && c <= 'z') || ('A' <= c && c <= 'Z') || c == '_'
}

/// The token type a lexeme denotes: one of the fixed keywords, or a plain
/// identifier.
pub open spec fn keyword_spec(s: Seq<char>) -> TokenType {
    if s == "and"@ {
        TokenType::And
    } else if s == "class"@ {
        TokenType::Class
    } else if s == "else"@ {
        TokenType::Else
    } else if s == "false"@ {
        TokenType::False
    } else if s == "for"@ {
        TokenType::For
    } else if s == "fun"@ {
        TokenType::Fun
    } else if s == "if"@ {
        TokenType::If
    } else if s == "nil"@ {
        TokenType::Nil
    } else if s == "or"@ {
        TokenType::Or
    } else if s == "print"@ {
        TokenType::Print
    } else if s == "return"@ {
        TokenType::Return
    } else if s == "super"@ {
        TokenType::Super
    } else if s == "this"@ {
        TokenType::This
    } else if s == "true"@ {
        TokenType::True
    } else if s == "var"@ {
        TokenType::Var
    } else if s == "while"@ {
        TokenType::While
    } else {
        TokenType::Identifier
    }
}

/// Classifies a lexeme as a keyword or an identifier.
fn keyword_type(lexeme: &String) -> (t: TokenType)
    ensures
        t == keyword_spec(lexeme@),
{
    if *lexeme == String::from_str("and") {
        TokenType::And
    } else if *lexeme == String::from_str("class") {
        TokenType::Class
    } else if *lexeme == String::from_str("else") {
        TokenType::Else
    } else if *lexeme == String::from_str("false") {
        TokenType::False
    } else if *lexeme == String::from_str("for") {
        TokenType::For
    } else if *lexeme == String::from_str("fun") {
        TokenType::Fun
    } else if *lexeme == String::from_str("if") {
        TokenType::If
    } else if *lexeme == String::from_str("nil") {
        TokenType::Nil
    } else if *lexeme == String::from_str("or") {
        TokenType::Or
    } else if *lexeme == String::from_str("print") {
        TokenType::Print
    } else if *lexeme == String::from_str("return") {
        TokenType::Return
    } else if *lexeme == String::from_str("super") {
        TokenType::Super
    } else if *lexeme == String::from_str("this") {
        TokenType::This
    } else if *lexeme == String::from_str("true") {
        TokenType::True
    } else if *lexeme == String::from_str("var") {
        TokenType::Var
    } else if *lexeme == String::from_str("while") {
        TokenType::While
    } else {
        TokenType::Identifier
    }
}

/// Whether position `p` is the end of the input: past the last character,
/// or at an embedded NUL.
pub open spec fn at_end_at(s: Seq<char>, p: int) -> bool {
    p >= s.len() || s[p] == '\0'
}

/// The character after position `p` as the scanner peeks it: a NUL once
/// the input is exhausted, nothing at the very last character.
pub open spec fn peek_next_at(s: Seq<char>, p: int) -> Option<char> {
    if at_end_at(s, p) {
        Some('\0')
    } else if p + 1 < s.len() {
        Some(s[p + 1])
    } else {
        None
    }
}

/// Where a line comment starting before `p` stops: the next newline, NUL,
/// or the end of the input.
pub open spec fn line_comment_end(s: Seq<char>, p: int) -> int
    decreases s.len() - p,
{
    if 0 <= p < s.len() && s[p] != '\n' && s[p] != '\0' {
        line_comment_end(s, p + 1)
    } else {
        p
    }
}

/// A line comment stops within the input, no earlier than it began.
pub proof fn lemma_line_comment_end_bounds(s: Seq<char>, p: int)
    requires
        0 <= p <= s.len(),
    ensures
        p <= line_comment_end(s, p) <= s.len(),
    decreases s.len() - p,
{
    if 0 <= p < s.len() && s[p] != '\n' && s[p] != '\0' {
        lemma_line_comment_end_bounds(s, p + 1);
    }
}

/// Where a block comment whose body starts at `p` stops — just past its
/// closing marker, or at the end of the input — and the line count there,
/// newlines spanned included.
pub open spec fn block_comment_end(s: Seq<char>, p: int, line: int) -> (int, int)
    decreases s.len() - p,
{
    if p < 0 || at_end_at(s, p) {
        (p, line)
    } else if s[p] == '*' && peek_next_at(s, p) == Some('/') {
        (p + 2, line)
    } else {
        block_comment_end(s, p + 1, if s[p] == '\n' {
            line + 1
        } else {
            line
        })
    }
}

/// A block comment stops within the input, no earlier than it began.
pub proof fn lemma_block_comment_end_bounds(s: Seq<char>, p: int, line: int)
    requires
        0 <= p <= s.len(),
    ensures
        p <= block_comment_end(s, p, line).0 <= s.len(),
    decreases s.len() - p,
{
    if p < 0 || at_end_at(s, p) {
    } else if s[p] == '*' && peek_next_at(s, p) == Some('/') {
    } else {
        lemma_block_comment_end_bounds(s, p + 1, if s[p] == '\n' {
            line + 1
        } else {
            line
        });
    }
}

/// The position and line after skipping whitespace and both comment forms
/// from `p`.
pub open spec fn skip_ws(s: Seq<char>, p: int, line: int) -> (int, int)
    decreases s.len() - p,
    via skip_ws_decreases
{
    if p < 0 || p >= s.len() {
        (p, line)
    } else {
        let c = s[p];
        if c == ' ' || c == '\r' || c == '\t' {
            skip_ws(s, p + 1, line)
        } else if c == '\n' {
            skip_ws(s, p + 1, line + 1)
        } else if c == '/' && peek_next_at(s, p) == Some('/') {
            skip_ws(s, line_comment_end(s, p + 2), line)
        } else if c == '/' && peek_next_at(s, p) == Some('*') {
            skip_ws(s, block_comment_end(s, p + 2, line).0, block_comment_end(s, p + 2, line).1)
        } else {
            (p, line)
        }
    }
}

#[via_fn]
proof fn skip_ws_decreases(s: Seq<char>, p: int, line: int) {
    if 0 <= p < s.len() {
        if s[p] == '/' && peek_next_at(s, p) == Some('/') {
            lemma_line_comment_end_bounds(s, p + 2);
        }
        if s[p] == '/' && peek_next_at(s, p) == Some('*') {
            lemma_block_comment_end_bounds(s, p + 2, line);
        }
    }
}

/// The end of a run of digits starting at `p`.
pub open spec fn digits_end(s: Seq<char>, p: int) -> int
    decreases s.len() - p,
{
    if 0 <= p < s.len() && is_digit_char(s[p]) {
        digits_end(s, p + 1)
    } else {
        p
    }
}

/// The end of a numeric literal whose first digit sits just before `p`:
/// further digits, then a decimal part only when a point is followed by a
/// digit.
pub open spec fn number_end(s: Seq<char>, p: int) -> int {
    let d = digits_end(s, p);
    if (match peek_next_at(s, d) {
        Some(nc) => d < s.len() && s[d] == '.' && is_digit_char(nc),
        None => false,
    }) {
        digits_end(s, d + 1)
    } else {
        d
    }
}

/// The end of an identifier continuing at `p`.
pub open spec fn ident_end(s: Seq<char>, p: int) -> int
    decreases s.len() - p,
{
    if 0 <= p < s.len() && (is_alpha_char(s[p]) || is_digit_char(s[p])) {
        ident_end(s, p + 1)
    } else {
        p
    }
}

/// Where a string literal's body starting at `p` stops — at the closing
/// quote, a NUL, or the end of the input — and the line count there.
pub open spec fn string_scan(s: Seq<char>, p: int, line: int) -> (int, int)
    decreases s.len() - p,
{
    if 0 <= p < s.len() && s[p] != '"' && s[p] != '\0' {
        string_scan(s, p + 1, if s[p] == '\n' {
            line + 1
        } else {
            line
        })
    } else {
        (p, line)
    }
}

/// What one scan returns and where it leaves the scanner: the token's
/// category and text, and the cursor and line after it.
pub struct SpecToken {
    pub ttype: TokenType,
    pub lexeme: Seq<char>,
    pub pos: int,
    pub line: int,
}

/// A one-character token.
pub open spec fn punct_token(s: Seq<char>, p: int, line: int, t: TokenType) -> SpecToken {
    SpecToken { ttype: t, lexeme: s.subrange(p, p + 1), pos: p + 1, line }
}

/// A token that takes its two-character form when an equals sign follows.
pub open spec fn two_char_token(
    s: Seq<char>,
    p: int,
    line: int,
    two: TokenType,
    one: TokenType,
) -> SpecToken {
    if p + 1 < s.len() && s[p + 1] == '=' {
        SpecToken { ttype: two, lexeme: s.subrange(p, p + 2), pos: p + 2, line }
    } else {
        SpecToken { ttype: one, lexeme: s.subrange(p, p + 1), pos: p + 1, line }
    }
}

/// The scanner, as a function: the token produced by one scan from cursor
/// `pos` at line `line0`, with the state it leaves behind.
pub open spec fn scan_spec(s: Seq<char>, pos: int, line0: int) -> SpecToken {
    let (p, line) = skip_ws(s, pos, line0);
    if at_end_at(s, p) {
        SpecToken { ttype: TokenType::EOF, lexeme: Seq::<char>::empty(), pos: p, line }
    } else {
        let c = s[p];
        if is_alpha_char(c) {
            let end = ident_end(s, p + 1);
            let lex = s.subrange(p, end);
            SpecToken { ttype: keyword_spec(lex), lexeme: lex, pos: end, line }
        } else if is_digit_char(c) {
            let end = number_end(s, p + 1);
            SpecToken { ttype: TokenType::Number, lexeme: s.subrange(p, end), pos: end, line }
        } else if c == '(' {
            punct_token(s, p, line, TokenType::LeftParen)
        } else if c == ')' {
            punct_token(s, p, line, TokenType::RightParen)
        } else if c == '{' {
            punct_token(s, p, line, TokenType::LeftBrace)
        } else if c == '}' {
            punct_token(s, p, line, TokenType::RightBrace)
        } else if c == ';' {
            punct_token(s, p, line, TokenType::Semicolon)
        } else if c == ',' {
            punct_token(s, p, line, TokenType::Comma)
        } else if c == '.' {
            punct_token(s, p, line, TokenType::Dot)
        } else if c == '-' {
            punct_token(s, p, line, TokenType::Minus)
        } else if c == '+' {
            punct_token(s, p, line, TokenType::Plus)
        } else if c == '/' {
            punct_token(s, p, line, TokenType::Slash)
        } else if c == '*' {
            punct_token(s, p, line, TokenType::Star)
        } else if c == '!' {
            two_char_token(s, p, line, TokenType::BangEqual, TokenType::Bang)
        } else if c == '=' {
            two_char_token(s, p, line, TokenType::EqualEqual, TokenType::Equal)
        } else if c == '<' {
            two_char_token(s, p, line, TokenType::LessEqual, TokenType::Less)
        } else if c == '>' {
            two_char_token(s, p, line, TokenType::GreaterEqual, TokenType::Greater)
        } else if c == '"' {
            let (q, line2) = string_scan(s, p + 1, line);
            if at_end_at(s, q) {
                SpecToken { ttype: TokenType::Error, lexeme: "Unterminated string."@, pos: q, line: line2 }
            } else {
                SpecToken { ttype: TokenType::Str, lexeme: s.subrange(p, q + 1), pos: q + 1, line: line2 }
            }
        } else {
            SpecToken { ttype: TokenType::Error, lexeme: "Unexpected character."@, pos: p + 1, line }
        }
    }
}

/// One lexeme of the source: its category, its text (or, for an error
/// token, a diagnostic message), and the line it lies on.
#[derive(Clone, Debug)]
pub struct Token {
    pub ttype: TokenType,
    pub lexeme: String,
    pub line: i32,
}

impl Token {
    pub fn get_line(&self) -> (r: i32)
        ensures
            r == self.line,
    {
        self.line
    }

    pub fn get_type(&self) -> (r: TokenType)
        ensures
            r == self.ttype,
    {
        self.ttype
    }

    pub fn get_lexeme(&self) -> (r: String)
        ensures
            r@ == self.lexeme@,
    {
        self.lexeme.clone()
    }
}

/// The lexical scanner: a cursor over the source text and the line count at
/// that cursor. `start` marks where the token being scanned began.
#[derive(Debug)]
pub struct Scanner {
    pub text: String,
    pub source: Vec<char>,
    pub start: usize,
    pub current: usize,
    pub line: i32,
}

impl Scanner {
    /// The scanner's invariant: the character vector mirrors the text, the
    /// cursor stays inside it, and the line count stays small enough that
    /// counting another newline cannot overflow.
    pub open spec fn wf(self) -> bool {
        &&& self.source@ == self.text@
        &&& self.start <= self.current <= self.source@.len()
        &&& 1 <= self.line
        &&& self.line as int <= 1 + self.current as int
        &&& self.source@.len() + 2 < 0x8000_0000
    }

    /// Whether the cursor has reached the end of the input: past the last
    /// character, or at an embedded NUL, which terminates scanning.
    pub open spec fn at_end_spec(self) -> bool {
        self.current as int >= self.source@.len() || self.source@[self.current as int] == '\0'
    }

    pub fn new(source: String) -> (r: Self)
        requires
            source@.len() + 2 < 0x8000_0000,
        ensures
            r.wf(),
            r.source@ == source@,
            r.start == 0,
            r.current == 0,
            r.line == 1,
    {
        let len = source.as_str().unicode_len();
        let mut chars: Vec<char> = Vec::new();
        let mut i: usize = 0;
        while i < len
            invariant
                i <= len,
                len == source@.len(),
                chars@ == source@.subrange(0, i as int),
            decreases len - i,
        {
            let c = source.as_str().get_char(i);
            chars.push(c);
            proof {
                assert(chars@ =~= source@.subrange(0, i + 1 as int));
            }
            i = i + 1;
        }
        proof {
            assert(chars@ =~= source@);
        }
        Scanner { text: source, source: chars, start: 0, current: 0, line: 1 }
    }

    fn is_digit(&self, c: char) -> (r: bool)
        ensures
            r == is_digit_char(c),
    {
        c >= '0' && c <= '9'
    }

    fn is_alpha(&self, c: char) -> (r: bool)
        ensures
            r == is_alpha_char(c),
    {
        (c >= 'a' && c <= 'z') || (c >= 'A' && c <= 'Z') || c == '_'
    }

    /// The character under the cursor, if any.
    fn peek(&self) -> (r: Option<char>)
        ensures
            r == (if self.current < self.source@.len() {
                Some(self.source@[self.current as int])
            } else {
                None::<char>
            }),
    {
        if self.current < self.source.len() {
            Some(self.source[self.current])
        } else {
            None
        }
    }

    /// The character after the one under the cursor; a NUL once the input
    /// is exhausted.
    fn peek_next(&self) -> (r: Option<char>)
        requires
            self.wf(),
        ensures
            r == (if self.at_end_spec() {
                Some('\0')
            } else if self.current + 1 < self.source@.len() {
                Some(self.source@[self.current as int + 1])
            } else {
                None::<char>
            }),
    {
        if self.is_at_end() {
            return Some('\0');
        }
        if self.current + 1 < self.source.len() {
            Some(self.source[self.current + 1])
        } else {
            None
        }
    }

    fn is_at_end(&self) -> (r: bool)
        requires
            self.wf(),
        ensures
            r == self.at_end_spec(),
    {
        match self.peek() {
            Some(c) => c == '\0',
            None => true,
        }
    }

    /// Consumes one character.
    fn advance(&mut self) -> (r: Option<char>)
        requires
            old(self).wf(),
        ensures
            final (self).wf(),
            final (self).source@ == old(self).source@,
            final (self).text@ == old(self).text@,
            final (self).start == old(self).start,
            final (self).line == old(self).line,
            if old(self).current < old(self).source@.len() {
                r == Some(old(self).source@[old(self).current as int]) && final (self).current
                    == old(self).current + 1
            } else {
                r == None::<char> && final (self).current == old(self).current
            },
    {
        let c = self.peek();
        if c.is_some() {
            self.current = self.current + 1;
        }
        c
    }

    /// Consumes the character under the cursor only when it is the expected
    /// one (and not the end of input).
    fn match_char(&mut self, expected: char) -> (r: bool)
        requires
            old(self).wf(),
        ensures
            final (self).wf(),
            final (self).source@ == old(self).source@,
            final (self).text@ == old(self).text@,
            final (self).start == old(self).start,
            final (self).line == old(self).line,
            if !old(self).at_end_spec() && old(self).source@[old(self).current as int] == expected {
                r && final (self).current == old(self).current + 1
            } else {
                !r && final (self).current == old(self).current
            },
    {
        if self.is_at_end() {
            return false;
        }
        match self.peek() {
            Some(c) => {
                if c == expected {
                    self.current = self.current + 1;
                    true
                } else {
                    false
                }
            },
            None => false,
        }
    }

    /// Consumes whitespace and both line and block comments, counting
    /// newlines along the way. At the end of the input it does nothing.
    fn skip_whitespace(&mut self)
        requires
            old(self).wf(),
        ensures
            final (self).wf(),
            final (self).source@ == old(self).source@,
            final (self).text@ == old(self).text@,
            final (self).start == old(self).start,
            old(self).current <= final (self).current,
            old(self).line <= final (self).line,
            skip_ws(old(self).source@, old(self).current as int, old(self).line as int) == (
                final (self).current as int,
                final (self).line as int,
            ),
            old(self).at_end_spec() ==> final (self).current == old(self).current
                && final (self).line == old(self).line,
    {
        loop
            invariant
                self.wf(),
                self.source@ == old(self).source@,
                self.text@ == old(self).text@,
                self.start == old(self).start,
                old(self).current <= self.current,
                old(self).line <= self.line,
                skip_ws(self.source@, self.current as int, self.line as int) == skip_ws(
                    old(self).source@,
                    old(self).current as int,
                    old(self).line as int,
                ),
                old(self).at_end_spec() ==> self.current == old(self).current
                    && self.line == old(self).line,
            decreases self.source@.len() - self.current,
        {
            let ghost s = self.source@;
            let ghost p0 = self.current as int;
            let ghost l0 = self.line as int;
            let c = self.peek();
            match c {
                Some(' ') | Some('\r') | Some('\t') => {
                    self.advance();
                    proof {
                        assert(skip_ws(s, p0, l0) == skip_ws(s, p0 + 1, l0));
                    }
                },
                Some('\n') => {
                    self.advance();
                    self.line = self.line + 1;
                    proof {
                        assert(skip_ws(s, p0, l0) == skip_ws(s, p0 + 1, l0 + 1));
                    }
                },
                Some('/') => {
                    match self.peek_next() {
                        Some('/') => {
                            // A line comment runs to the end of the line.
                            self.advance();
                            self.advance();
                            let ghost mark = self.current;
                            loop
                                invariant
                                    self.wf(),
                                    self.source@ == s,
                                    self.text@ == old(self).text@,
                                    self.start == old(self).start,
                                    mark <= self.current,
                                    old(self).current < mark,
                                    old(self).line <= self.line,
                                    self.line as int == l0,
                                    line_comment_end(s, self.current as int) == line_comment_end(
                                        s,
                                        mark as int,
                                    ),
                                ensures
                                    self.wf(),
                                    self.source@ == s,
                                    self.text@ == old(self).text@,
                                    self.start == old(self).start,
                                    old(self).current < self.current,
                                    self.line as int == l0,
                                    line_comment_end(s, mark as int) == self.current as int,
                                decreases self.source@.len() - self.current,
                            {
                                let ghost q = self.current as int;
                                match self.peek() {
                                    Some(ch) => {
                                        if ch == '\n' || ch == '\0' {
                                            proof {
                                                assert(line_comment_end(s, q) == q);
                                            }
                                            break ;
                                        }
                                        self.advance();
                                        proof {
                                            assert(line_comment_end(s, q) == line_comment_end(
                                                s,
                                                q + 1,
                                            ));
                                        }
                                    },
                                    None => {
                                        proof {
                                            assert(line_comment_end(s, q) == q);
                                        }
                                        break ;
                                    },
                                }
                            }
                            proof {
                                assert(mark as int == p0 + 2);
                                assert(skip_ws(s, p0, l0) == skip_ws(
                                    s,
                                    line_comment_end(s, p0 + 2),
                                    l0,
                                ));
                            }
                        },
                        Some('*') => {
                            // A block comment runs to the matching close,
                            // counting the newlines it spans.
                            self.advance();
                            self.advance();
                            let ghost mark = self.current;
                            let ghost lmark = self.line as int;
                            loop
                                invariant_except_break
                                    block_comment_end(s, self.current as int, self.line as int)
                                        == block_comment_end(s, mark as int, lmark),
                                invariant
                                    self.wf(),
                                    self.source@ == s,
                                    self.text@ == old(self).text@,
                                    self.start == old(self).start,
                                    mark <= self.current,
                                    old(self).current < mark,
                                    old(self).line <= self.line,
                                ensures
                                    block_comment_end(s, mark as int, lmark) == (
                                        self.current as int,
                                        self.line as int,
                                    ),
                                decreases self.source@.len() - self.current,
                            {
                                let ghost q = self.current as int;
                                let ghost lq = self.line as int;
                                if self.is_at_end() {
                                    proof {
                                        assert(block_comment_end(s, q, lq) == (q, lq));
                                    }
                                    break ;
                                }
                                let ch = match self.peek() {
                                    Some(ch) => ch,
                                    None => {
                                        proof {
                                            assert(block_comment_end(s, q, lq) == (q, lq));
                                        }
                                        break ;
                                    },
                                };
                                if ch == '*' {
                                    match self.peek_next() {
                                        Some('/') => {
                                            self.advance();
                                            self.advance();
                                            proof {
                                                assert(block_comment_end(s, q, lq) == (
                                                    self.current as int,
                                                    self.line as int,
                                                ));
                                            }
                                            break ;
                                        },
                                        _ => {
                                            self.advance();
                                            proof {
                                                assert(block_comment_end(s, q, lq)
                                                    == block_comment_end(s, q + 1, lq));
                                            }
                                        },
                                    }
                                } else {
                                    self.advance();
                                    if ch == '\n' {
                                        self.line = self.line + 1;
                                    }
                                    proof {
                                        assert(block_comment_end(s, q, lq) == block_comment_end(
                                            s,
                                            q + 1,
                                            self.line as int,
                                        ));
                                    }
                                }
                            }
                            proof {
                                assert(mark as int == p0 + 2 && lmark == l0);
                                assert(skip_ws(s, p0, l0) == skip_ws(
                                    s,
                                    block_comment_end(s, p0 + 2, l0).0,
                                    block_comment_end(s, p0 + 2, l0).1,
                                ));
                            }
                        },
                        _ => {
                            proof {
                                assert(skip_ws(s, p0, l0) == (p0, l0));
                            }
                            return ;
                        },
                    }
                },
                _ => {
                    proof {
                        assert(skip_ws(s, p0, l0) == (p0, l0));
                    }
                    return ;
                },
            }
        }
    }

    /// Builds a token of the given category from the span scanned since
    /// `start`.
    fn make_token(&self, ttype: TokenType) -> (t: Token)
        requires
            self.wf(),
        ensures
            t.ttype == ttype,
            t.line == self.line,
            t.lexeme@ == self.source@.subrange(self.start as int, self.current as int),
    {
        let sub = self.text.as_str().substring_char(self.start, self.current);
        Token { ttype, lexeme: String::from_str(sub), line: self.line }
    }

    /// Builds an error token carrying a diagnostic message in place of a
    /// lexeme.
    fn error_token(&self, message: String) -> (t: Token)
        ensures
            t.ttype == TokenType::Error,
            t.line == self.line,
            t.lexeme == message,
    {
        Token { ttype: TokenType::Error, lexeme: message, line: self.line }
    }

    /// Scans a string literal; the opening quote is already consumed. An
    /// unterminated literal yields an error token.
    fn string(&mut self) -> (t: Token)
        requires
            old(self).wf(),
        ensures
            final (self).wf(),
            final (self).source@ == old(self).source@,
            final (self).text@ == old(self).text@,
            final (self).start == old(self).start,
            old(self).current <= final (self).current,
            old(self).line <= final (self).line,
            t.line == final (self).line,
            t.ttype == TokenType::Str || t.ttype == TokenType::Error,
            t.ttype == TokenType::Str ==> t.lexeme@ == final (self).source@.subrange(
                final (self).start as int,
                final (self).current as int,
            ),
            ({
                let qq = string_scan(
                    old(self).source@,
                    old(self).current as int,
                    old(self).line as int,
                );
                &&& final (self).line as int == qq.1
                &&& if at_end_at(old(self).source@, qq.0) {
                    t.ttype == TokenType::Error && t.lexeme@ == "Unterminated string."@
                        && final (self).current as int == qq.0
                } else {
                    t.ttype == TokenType::Str && final (self).current as int == qq.0 + 1
                }
            }),
    {
        let ghost s = self.source@;
        let ghost p0 = self.current as int;
        let ghost l0 = self.line as int;
        loop
            invariant
                self.wf(),
                self.source@ == s,
                self.text@ == old(self).text@,
                self.start == old(self).start,
                old(self).current <= self.current,
                old(self).line <= self.line,
                string_scan(s, self.current as int, self.line as int) == string_scan(s, p0, l0),
            ensures
                self.wf(),
                self.source@ == s,
                self.text@ == old(self).text@,
                self.start == old(self).start,
                old(self).current <= self.current,
                old(self).line <= self.line,
                string_scan(s, p0, l0) == (self.current as int, self.line as int),
                self.current as int >= s.len() || s[self.current as int] == '"' || s[self.current as int] == '\0',
            decreases self.source@.len() - self.current,
        {
            let ghost q = self.current as int;
            let ghost lq = self.line as int;
            match self.peek() {
                Some(ch) => {
                    if ch == '"' || ch == '\0' {
                        proof {
                            assert(string_scan(s, q, lq) == (q, lq));
                        }
                        break ;
                    }
                    self.advance();
                    if ch == '\n' {
                        self.line = self.line + 1;
                    }
                    proof {
                        assert(string_scan(s, q, lq) == string_scan(
                            s,
                            q + 1,
                            self.line as int,
                        ));
                    }
                },
                None => {
                    proof {
                        assert(string_scan(s, q, lq) == (q, lq));
                    }
                    break ;
                },
            }
        }
        if self.is_at_end() {
            return self.error_token(String::from_str("Unterminated string."));
        }
        // The closing quote.
        self.advance();
        self.make_token(TokenType::Str)
    }

    /// Scans a numeric literal: digits with at most one decimal point that
    /// must be followed by a digit.
    fn number(&mut self) -> (t: Token)
        requires
            old(self).wf(),
        ensures
            final (self).wf(),
            final (self).source@ == old(self).source@,
            final (self).text@ == old(self).text@,
            final (self).start == old(self).start,
            old(self).current <= final (self).current,
            final (self).line == old(self).line,
            t.line == final (self).line,
            t.ttype == TokenType::Number,
            t.lexeme@ == final (self).source@.subrange(
                final (self).start as int,
                final (self).current as int,
            ),
            final (self).current as int == number_end(old(self).source@, old(self).current as int),
    {
        let ghost s = self.source@;
        let ghost p0 = self.current as int;
        loop
            invariant
                self.wf(),
                self.source@ == s,
                self.text@ == old(self).text@,
                self.start == old(self).start,
                old(self).current <= self.current,
                self.line == old(self).line,
                digits_end(s, self.current as int) == digits_end(s, p0),
            ensures
                self.wf(),
                self.source@ == s,
                self.text@ == old(self).text@,
                self.start == old(self).start,
                old(self).current <= self.current,
                self.line == old(self).line,
                self.current as int == digits_end(s, p0),
            decreases self.source@.len() - self.current,
        {
            let ghost q = self.current as int;
            match self.peek() {
                Some(ch) => {
                    if !self.is_digit(ch) {
                        proof {
                            assert(digits_end(s, q) == q);
                        }
                        break ;
                    }
                    self.advance();
                    proof {
                        assert(digits_end(s, q) == digits_end(s, q + 1));
                    }
                },
                None => {
                    proof {
                        assert(digits_end(s, q) == q);
                    }
                    break ;
                },
            }
        }
        let ghost d = self.current as int;
        // A decimal part: a point followed by at least one digit.
        let next = self.peek_next();
        if let Some(next_char) = next {
            let here = self.peek();
            if here == Some('.') && self.is_digit(next_char) {
                // Consume the point.
                self.advance();
                let ghost p1 = self.current as int;
                loop
                    invariant
                        self.wf(),
                        self.source@ == s,
                        self.text@ == old(self).text@,
                        self.start == old(self).start,
                        old(self).current <= self.current,
                        self.line == old(self).line,
                        digits_end(s, self.current as int) == digits_end(s, p1),
                    ensures
                        self.wf(),
                        self.source@ == s,
                        self.text@ == old(self).text@,
                        self.start == old(self).start,
                        old(self).current <= self.current,
                        self.line == old(self).line,
                        self.current as int == digits_end(s, p1),
                    decreases self.source@.len() - self.current,
                {
                    let ghost q = self.current as int;
                    match self.peek() {
                        Some(ch) => {
                            if !self.is_digit(ch) {
                                proof {
                                    assert(digits_end(s, q) == q);
                                }
                                break ;
                            }
                            self.advance();
                            proof {
                                assert(digits_end(s, q) == digits_end(s, q + 1));
                            }
                        },
                        None => {
                            proof {
                                assert(digits_end(s, q) == q);
                            }
                            break ;
                        },
                    }
                }
                proof {
                    assert(p1 == d + 1);
                    assert(self.current as int == number_end(s, p0));
                }
            } else {
                proof {
                    assert(self.current as int == number_end(s, p0));
                }
            }
        } else {
            proof {
                assert(self.current as int == number_end(s, p0));
            }
        }
        self.make_token(TokenType::Number)
    }

    /// Scans an identifier and classifies it against the keyword table.
    fn identifier(&mut self) -> (t: Token)
        requires
            old(self).wf(),
        ensures
            final (self).wf(),
            final (self).source@ == old(self).source@,
            final (self).text@ == old(self).text@,
            final (self).start == old(self).start,
            old(self).current <= final (self).current,
            final (self).line == old(self).line,
            t.line == final (self).line,
            t.ttype == keyword_spec(t.lexeme@),
            t.ttype != TokenType::Error && t.ttype != TokenType::EOF,
            t.lexeme@ == final (self).source@.subrange(
                final (self).start as int,
                final (self).current as int,
            ),
            final (self).current as int == ident_end(old(self).source@, old(self).current as int),
    {
        let ghost s = self.source@;
        let ghost p0 = self.current as int;
        loop
            invariant
                self.wf(),
                self.source@ == s,
                self.text@ == old(self).text@,
                self.start == old(self).start,
                old(self).current <= self.current,
                self.line == old(self).line,
                ident_end(s, self.current as int) == ident_end(s, p0),
            ensures
                self.wf(),
                self.source@ == s,
                self.text@ == old(self).text@,
                self.start == old(self).start,
                old(self).current <= self.current,
                self.line == old(self).line,
                self.current as int == ident_end(s, p0),
            decreases self.source@.len() - self.current,
        {
            let ghost q = self.current as int;
            match self.peek() {
                Some(ch) => {
                    if !self.is_alpha(ch) && !self.is_digit(ch) {
                        proof {
                            assert(ident_end(s, q) == q);
                        }
                        break ;
                    }
                    self.advance();
                    proof {
                        assert(ident_end(s, q) == ident_end(s, q + 1));
                    }
                },
                None => {
                    proof {
                        assert(ident_end(s, q) == q);
                    }
                    break ;
                },
            }
        }
        let sub = self.text.as_str().substring_char(self.start, self.current);
        let lexeme = String::from_str(sub);
        let ttype = keyword_type(&lexeme);
        Token { ttype, lexeme, line: self.line }
    }

    /// Produces the next token of the source. Lexical failures come back as
    /// error tokens; once the input is exhausted, every further call yields
    /// an end-of-input token and leaves the scanner unchanged.
    pub fn scan_token(&mut self) -> (t: Token)
        requires
            old(self).wf(),
        ensures
            final (self).wf(),
            final (self).source@ == old(self).source@,
            final (self).text@ == old(self).text@,
            old(self).current <= final (self).current,
            old(self).line <= final (self).line,
            t.line == final (self).line,
            t.ttype != TokenType::EOF ==> old(self).current < final (self).current,
            t.ttype == TokenType::EOF ==> final (self).at_end_spec(),
            old(self).at_end_spec() ==> t.ttype == TokenType::EOF
                && final (self).current == old(self).current
                && final (self).line == old(self).line,
            t.ttype != TokenType::Error && t.ttype != TokenType::EOF ==> old(self).current
                <= final (self).start <= final (self).current
                && t.lexeme@ == final (self).source@.subrange(
                final (self).start as int,
                final (self).current as int,
            ),
            ({
                let st = scan_spec(
                    old(self).source@,
                    old(self).current as int,
                    old(self).line as int,
                );
                &&& t.ttype == st.ttype
                &&& t.lexeme@ == st.lexeme
                &&& t.line as int == st.line
                &&& final (self).current as int == st.pos
                &&& final (self).line as int == st.line
            }),
    {
        let ghost src = self.source@;
        let ghost pos0 = self.current as int;
        let ghost line0 = self.line as int;
        self.skip_whitespace();
        let ghost p = self.current as int;
        self.start = self.current;
        if self.is_at_end() {
            proof {
                assert(src.subrange(p, p) =~= Seq::<char>::empty());
            }
            return self.make_token(TokenType::EOF);
        }
        let c = match self.advance() {
            Some(c) => c,
            None => {
                return self.make_token(TokenType::EOF);
            },
        };
        if self.is_alpha(c) {
            return self.identifier();
        }
        if self.is_digit(c) {
            return self.number();
        }
        match c {
            '(' => self.make_token(TokenType::LeftParen),
            ')' => self.make_token(TokenType::RightParen),
            '{' => self.make_token(TokenType::LeftBrace),
            '}' => self.make_token(TokenType::RightBrace),
            ';' => self.make_token(TokenType::Semicolon),
            ',' => self.make_token(TokenType::Comma),
            '.' => self.make_token(TokenType::Dot),
            '-' => self.make_token(TokenType::Minus),
            '+' => self.make_token(TokenType::Plus),
            '/' => self.make_token(TokenType::Slash),
            '*' => self.make_token(TokenType::Star),
            '!' => {
                if self.match_char('=') {
                    self.make_token(TokenType::BangEqual)
                } else {
                    self.make_token(TokenType::Bang)
                }
            },
            '=' => {
                if self.match_char('=') {
                    self.make_token(TokenType::EqualEqual)
                } else {
                    self.make_token(TokenType::Equal)
                }
            },
            '<' => {
                if self.match_char('=') {
                    self.make_token(TokenType::LessEqual)
                } else {
                    self.make_token(TokenType::Less)
                }
            },
            '>' => {
                if self.match_char('=') {
                    self.make_token(TokenType::GreaterEqual)
                } else {
                    self.make_token(TokenType::Greater)
                }
            },
            '"' => self.string(),
            _ => self.error_token(String::from_str("Unexpected character.")),
        }
    }
}

} // verus!
