//! Verified plain-text building blocks: decimal rendering of integers and
//! column padding, used by the diagnostics and the disassembler.

use vstd::prelude::*;
use vstd::string::*;

verus! {

/// The character for one decimal digit.
pub open spec fn digit_char(d: nat) -> char {
    if d == 0 {
        '0'
    } else if d == 1 {
        '1'
    } else if d == 2 {
        '2'
    } else if d == 3 {
        '3'
    } else if d == 4 {
        '4'
    } else if d == 5 {
        '5'
    } else if d == 6 {
        '6'
    } else if d == 7 {
        '7'
    } else if d == 8 {
        '8'
    } else {
        '9'
    }
}

/// The decimal rendering of a natural number, most significant digit first.
pub open spec fn dec_str(n: nat) -> Seq<char>
    decreases n,
{
    if n < 10 {
        seq![digit_char(n)]
    } else {
        dec_str(n / 10) + seq![digit_char(n % 10)]
    }
}

/// The decimal rendering of an integer: a minus sign before the magnitude
/// when negative.
pub open spec fn dec_str_signed(n: int) -> Seq<char> {
    if n < 0 {
        seq!['-'] + dec_str((-n) as nat)
    } else {
        dec_str(n as nat)
    }
}

/// A run of one repeated character.
pub open spec fn rep_char(c: char, k: nat) -> Seq<char>
    decreases k,
{
    if k == 0 {
        Seq::<char>::empty()
    } else {
        rep_char(c, (k - 1) as nat) + seq![c]
    }
}

/// The text left-padded with `c` up to `width` characters.
pub open spec fn padded_left(s: Seq<char>, width: nat, c: char) -> Seq<char> {
    if s.len() >= width {
        s
    } else {
        rep_char(c, (width - s.len()) as nat) + s
    }
}

/// The text right-padded with spaces up to `width` characters.
pub open spec fn padded_right(s: Seq<char>, width: nat) -> Seq<char> {
    if s.len() >= width {
        s
    } else {
        s + rep_char(' ', (width - s.len()) as nat)
    }
}

/// One decimal digit as text.
fn digit_text(d: u64) -> (r: &'static str)
    requires
        d < 10,
    ensures
        r@ == seq![digit_char(d as nat)],
{
    let r: &'static str = match d {
        0 => "0",
        1 => "1",
        2 => "2",
        3 => "3",
        4 => "4",
        5 => "5",
        6 => "6",
        7 => "7",
        8 => "8",
        _ => "9",
    };
    proof {
        reveal_strlit("0");
        reveal_strlit("1");
        reveal_strlit("2");
        reveal_strlit("3");
        reveal_strlit("4");
        reveal_strlit("5");
        reveal_strlit("6");
        reveal_strlit("7");
        reveal_strlit("8");
        reveal_strlit("9");
        assert(r@ =~= seq![digit_char(d as nat)]);
    }
    r
}

/// Renders a natural number in decimal.
pub fn u64_dec(n: u64) -> (r: String)
    ensures
        r@ == dec_str(n as nat),
    decreases n,
{
    if n < 10 {
        let mut r = String::new();
        r.append(digit_text(n));
        proof {
            assert(r@ =~= dec_str(n as nat));
        }
        r
    } else {
        proof {
            assert(n / 10 < n) by (nonlinear_arith)
                requires
                    n >= 10,
            ;
            assert(n % 10 < 10) by (nonlinear_arith);
        }
        let mut r = u64_dec(n / 10);
        r.append(digit_text(n % 10));
        proof {
            assert(r@ =~= dec_str(n as nat));
        }
        r
    }
}

/// Renders a signed number in decimal.
pub fn i32_dec(n: i32) -> (r: String)
    ensures
        r@ == dec_str_signed(n as int),
{
    if n < 0 {
        let magnitude: u64 = (-(n as i64)) as u64;
        let mut r = String::from_str("-");
        r.append(u64_dec(magnitude).as_str());
        proof {
            reveal_strlit("-");
            assert(r@ =~= dec_str_signed(n as int));
        }
        r
    } else {
        let r = u64_dec(n as u64);
        r
    }
}

/// Left-pads the text with `fill` (one character) up to `width` columns.
pub fn pad_left(s: &str, width: usize, fill: &str) -> (r: String)
    requires
        fill@.len() == 1,
    ensures
        r@ == padded_left(s@, width as nat, fill@[0]),
{
    let len = s.unicode_len();
    let mut r = String::new();
    if len < width {
        let k = width - len;
        let mut i: usize = 0;
        while i < k
            invariant
                i <= k,
                fill@.len() == 1,
                r@ =~= rep_char(fill@[0], i as nat),
            decreases k - i,
        {
            r.append(fill);
            i = i + 1;
        }
    }
    r.append(s);
    proof {
        assert(r@ =~= padded_left(s@, width as nat, fill@[0]));
    }
    r
}

/// Right-pads the text with spaces up to `width` columns.
pub fn pad_right(s: &str, width: usize) -> (r: String)
    ensures
        r@ == padded_right(s@, width as nat),
{
    let len = s.unicode_len();
    let mut r = String::new();
    r.append(s);
    if len < width {
        let k = width - len;
        let mut i: usize = 0;
        while i < k
            invariant
                i <= k,
                r@ =~= s@ + rep_char(' ', i as nat),
            decreases k - i,
        {
            proof {
                reveal_strlit(" ");
            }
            r.append(" ");
            i = i + 1;
        }
    }
    proof {
        reveal_strlit(" ");
        assert(r@ =~= padded_right(s@, width as nat));
    }
    r
}

} // verus!
