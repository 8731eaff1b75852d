//! Source-located diagnostics with caret-style rendering.
//!
//! A diagnostic carries a message, the source text it was found in, and the
//! line and column (a character offset from the start of the source) of the
//! offence.  Both the scanner and the parser report failures as values of
//! this type; rendering produces the message, the offending text and a
//! caret marker under the column.

use vstd::prelude::*;
use vstd::string::*;

use crate::lex::{lemma_run_end_fix, run_end};

verus! {

/// The decimal digit character for a value below ten.
pub open spec fn digit_char(d: int) -> char {
    if d == 0 {
        '0'
    } else if d == 1 {
        '1'
    } else if d == 2 {
        '2'
    } else if d == 3 {
        '3'
    } else if d == 4 {
        '4'
    } else if d == 5 {
        '5'
    } else if d == 6 {
        '6'
    } else if d == 7 {
        '7'
    } else if d == 8 {
        '8'
    } else {
        '9'
    }
}

/// The decimal numeral of a non-negative integer, most significant digit
/// first.
pub open spec fn dec_str(n: int) -> Seq<char>
    decreases n,
{
    if n < 10 {
        seq![digit_char(n)]
    } else {
        dec_str(n / 10).push(digit_char(n % 10))
    }
}

/// The decimal numeral of an integer, with a leading minus sign when
/// negative.
pub open spec fn dec_str_signed(n: int) -> Seq<char> {
    if n < 0 {
        seq!['-'] + dec_str(-n)
    } else {
        dec_str(n)
    }
}

/// A whitespace character, in the ASCII sense.
pub open spec fn is_space(c: char) -> bool {
    c == ' ' || c == '\t' || c == '\n' || c == '\r'
}

/// The end of a trailing-whitespace-free prefix: the position after the
/// last non-whitespace character at or before `b`.
pub open spec fn rtrim_end(s: Seq<char>, b: int) -> int
    decreases b,
{
    if 0 < b <= s.len() && is_space(s[b - 1]) {
        rtrim_end(s, b - 1)
    } else {
        b
    }
}

/// The text with leading and trailing whitespace removed.
pub open spec fn trim_of(s: Seq<char>) -> Seq<char> {
    let a = run_end(s, 0, |c: char| is_space(c));
    let b = rtrim_end(s, s.len() as int);
    if a < b {
        s.subrange(a, b)
    } else {
        Seq::empty()
    }
}

/// A run of `k` spaces.
pub open spec fn spaces(k: int) -> Seq<char>
    decreases k,
{
    if k <= 0 {
        Seq::empty()
    } else {
        spaces(k - 1).push(' ')
    }
}

/// The rendering of a diagnostic: its message, then the offending text
/// prefixed by its line number, then a caret marker under the column.
pub open spec fn render_error(e: ErrorModel) -> Seq<char> {
    e.message + "\n|\n|"@ + dec_str(e.line) + ". "@ + trim_of(e.text) + "\n|"@ + spaces(e.col + 2)
        + "\u{2191} \n"@
}

/// The decimal digit of a value below ten, as text.
fn digit_str(d: usize) -> (r: &'static str)
    requires
        d < 10,
    ensures
        r@ == seq![digit_char(d as int)],
{
    let r = match d {
        0 => "0",
        1 => "1",
        2 => "2",
        3 => "3",
        4 => "4",
        5 => "5",
        6 => "6",
        7 => "7",
        8 => "8",
        _ => "9",
    };
    proof {
        reveal_strlit("0");
        reveal_strlit("1");
        reveal_strlit("2");
        reveal_strlit("3");
        reveal_strlit("4");
        reveal_strlit("5");
        reveal_strlit("6");
        reveal_strlit("7");
        reveal_strlit("8");
        reveal_strlit("9");
        assert(r@ =~= seq![digit_char(d as int)]);
    }
    r
}

/// The decimal numeral of a machine integer.
pub fn usize_to_string(n: usize) -> (r: String)
    ensures
        r@ == dec_str(n as int),
    decreases n,
{
    if n < 10 {
        String::from_str(digit_str(n))
    } else {
        let mut s = usize_to_string(n / 10);
        s.append(digit_str(n % 10));
        proof {
            assert(dec_str(n as int / 10) + seq![digit_char(n as int % 10)] =~= dec_str(
                n as int / 10,
            ).push(digit_char(n as int % 10)));
        }
        s
    }
}

/// The decimal numeral of a signed machine integer.
pub fn i32_to_string(v: i32) -> (r: String)
    ensures
        r@ == dec_str_signed(v as int),
{
    if v >= 0 {
        usize_to_string(v as usize)
    } else {
        let m = -(v as i64);
        let mut s = String::from_str("-");
        let digits = usize_to_string(m as usize);
        s.append(digits.as_str());
        proof {
            reveal_strlit("-");
            assert("-"@ =~= seq!['-']);
        }
        s
    }
}

/// A run of `k` spaces, as text.
fn space_run(k: usize) -> (r: String)
    ensures
        r@ == spaces(k as int),
{
    let mut out = String::new();
    let mut i: usize = 0;
    proof {
        reveal_strlit(" ");
    }
    while i < k
        invariant
            i <= k,
            out@ == spaces(i as int),
            " "@ == seq![' '],
        decreases k - i,
    {
        out.append(" ");
        i = i + 1;
    }
    out
}

/// The text with leading and trailing whitespace removed.
fn trimmed(s: &String) -> (r: String)
    ensures
        r@ == trim_of(s@),
{
    let n = s.as_str().unicode_len();
    let mut a: usize = 0;
    while a < n && is_space_ch(s.as_str().get_char(a))
        invariant
            a <= n,
            n == s@.len(),
            forall|i: int| 0 <= i < a ==> is_space(s@[i]),
        decreases n - a,
    {
        a = a + 1;
    }
    proof {
        lemma_run_end_fix(s@, 0, a as int, |c: char| is_space(c));
    }
    let mut b: usize = n;
    while b > 0 && is_space_ch(s.as_str().get_char(b - 1))
        invariant
            b <= n,
            n == s@.len(),
            rtrim_end(s@, n as int) == rtrim_end(s@, b as int),
        decreases b,
    {
        b = b - 1;
    }
    if a < b {
        String::from_str(s.as_str().substring_char(a, b))
    } else {
        String::new()
    }
}

/// A whitespace character, executably.
fn is_space_ch(c: char) -> (b: bool)
    ensures
        b == is_space(c),
{
    c == ' ' || c == '\t' || c == '\n' || c == '\r'
}

/// The mathematical value of an `Error`: its texts as character sequences
/// and its position as unbounded integers.
pub struct ErrorModel {
    pub message: Seq<char>,
    pub text: Seq<char>,
    pub line: int,
    pub col: int,
}

/// A source-located diagnostic.
#[derive(Debug)]
pub struct Error {
    pub message: String,
    pub text: String,
    pub line: usize,
    pub col: usize,
}

impl View for Error {
    type V = ErrorModel;

    open spec fn view(&self) -> ErrorModel {
        ErrorModel {
            message: self.message@,
            text: self.text@,
            line: self.line as int,
            col: self.col as int,
        }
    }
}

impl Error {
    pub fn new(message: String, text: String, line: usize, col: usize) -> (r: Self)
        ensures
            r@ == (ErrorModel {
                message: message@,
                text: text@,
                line: line as int,
                col: col as int,
            }),
    {
        Error { message, text, line, col }
    }

    /// Renders the diagnostic: the message, the offending text prefixed by
    /// its line number, and a caret marker under the column.
    pub fn render(&self) -> (r: String)
        requires
            self.col < usize::MAX - 1,
        ensures
            r@ == render_error(self@),
    {
        let mut out = self.message.clone();
        out.append("\n|\n|");
        let line_text = usize_to_string(self.line);
        out.append(line_text.as_str());
        out.append(". ");
        let trimmed_text = trimmed(&self.text);
        out.append(trimmed_text.as_str());
        out.append("\n|");
        let pad = space_run(self.col + 2);
        out.append(pad.as_str());
        out.append("\u{2191} \n");
        out
    }
}

} // verus!
