//! The lexical grammar, stated mathematically.
//!
//! `lex_step` says what one lexeme starting at a given position yields: how
//! far scanning moves, what the line counter becomes, and the at most one
//! token or at most one diagnostic the lexeme contributes.  `lex_from`
//! folds `lex_step` over the whole source; the scanner is verified to
//! produce exactly `lex_from(source, 0, 1)`.
//!
//! Text is handled as a sequence of characters; positions, columns and the
//! dispatch on operators, numerals, identifiers and keywords are all
//! ASCII-oriented, as the grammar itself is.

use vstd::prelude::*;

use crate::error_fmt::ErrorModel;
use crate::token::{LiteralModel, TokenModel, TokenType};

verus! {

/// A decimal digit.
pub open spec fn is_digit(c: char) -> bool {
    48 <= c as u32 <= 57
}

/// An ASCII letter.
pub open spec fn is_alpha(c: char) -> bool {
    (65 <= c as u32 <= 90) || (97 <= c as u32 <= 122)
}

/// A character that may continue an identifier.
pub open spec fn is_alnum(c: char) -> bool {
    is_digit(c) || is_alpha(c)
}

/// The first position at or after `p` whose character fails `f`, or the end
/// of the sequence.
pub open spec fn run_end(s: Seq<char>, p: int, f: spec_fn(char) -> bool) -> int
    decreases s.len() - p,
{
    if 0 <= p && p < s.len() && f(s[p]) {
        run_end(s, p + 1, f)
    } else {
        p
    }
}

/// End of the digit run starting at `p`.
pub open spec fn digits_end(s: Seq<char>, p: int) -> int {
    run_end(s, p, |c: char| is_digit(c))
}

/// End of the identifier-character run starting at `p`.
pub open spec fn alnum_end(s: Seq<char>, p: int) -> int {
    run_end(s, p, |c: char| is_alnum(c))
}

/// End of a line comment's body: the position of the next newline (left
/// unconsumed for the main scan to count), or the end of the source.
pub open spec fn comment_end(s: Seq<char>, p: int) -> int {
    run_end(s, p, |c: char| c != '\n')
}

/// The position of the next double quote at or after `p`, or the end of the
/// source.
pub open spec fn quote_end(s: Seq<char>, p: int) -> int {
    run_end(s, p, |c: char| c != '"')
}

/// The number of newline characters in `s[a..b]`.
pub open spec fn newlines(s: Seq<char>, a: int, b: int) -> int
    decreases b - a,
{
    if a < b {
        (if 0 <= a < s.len() && s[a] == '\n' {
            1int
        } else {
            0int
        }) + newlines(s, a + 1, b)
    } else {
        0
    }
}

/// Scanning a block comment from position `p` at nesting depth `depth`:
/// `Some(q)` is the position just past the `*/` that closes the outermost
/// level, `None` means the source ends first.  A `/*` on the way opens a
/// nested comment, so its `*/` does not close the outer one.
pub open spec fn bc_scan(s: Seq<char>, p: int, depth: int) -> Option<int>
    decreases s.len() - p,
{
    if !(0 <= p && p < s.len()) {
        None
    } else if s[p] == '*' && p + 1 < s.len() && s[p + 1] == '/' {
        if depth <= 1 {
            Some(p + 2)
        } else {
            bc_scan(s, p + 2, depth - 1)
        }
    } else if s[p] == '/' && p + 1 < s.len() && s[p + 1] == '*' {
        bc_scan(s, p + 2, depth + 1)
    } else {
        bc_scan(s, p + 1, depth)
    }
}

/// The keyword kind for an identifier text, if it is a reserved word.
pub open spec fn keyword_kind(t: Seq<char>) -> Option<TokenType> {
    if t == "and"@ {
        Some(TokenType::And)
    } else if t == "class"@ {
        Some(TokenType::Class)
    } else if t == "else"@ {
        Some(TokenType::Else)
    } else if t == "false"@ {
        Some(TokenType::False)
    } else if t == "fun"@ {
        Some(TokenType::Fun)
    } else if t == "for"@ {
        Some(TokenType::For)
    } else if t == "if"@ {
        Some(TokenType::If)
    } else if t == "nil"@ {
        Some(TokenType::Nil)
    } else if t == "or"@ {
        Some(TokenType::Or)
    } else if t == "print"@ {
        Some(TokenType::Print)
    } else if t == "return"@ {
        Some(TokenType::Return)
    } else if t == "super"@ {
        Some(TokenType::Super)
    } else if t == "this"@ {
        Some(TokenType::This)
    } else if t == "true"@ {
        Some(TokenType::True)
    } else if t == "var"@ {
        Some(TokenType::Var)
    } else if t == "while"@ {
        Some(TokenType::While)
    } else if t == "eof"@ {
        Some(TokenType::Eof)
    } else {
        None
    }
}

/// Message of the diagnostic for a character no lexeme can start with.
pub open spec fn msg_unexpected_char() -> Seq<char> {
    "Lexical Error: "@ + "Unexpected character."@
}

/// Message of the diagnostic for a string the source ends inside of.
pub open spec fn msg_unterminated_string() -> Seq<char> {
    "Lexical Error: "@ + "Unterminated string."@
}

/// Message of the diagnostic for a block comment the source ends inside of.
pub open spec fn msg_unterminated_comment() -> Seq<char> {
    "Lexical Error: "@ + "Unterminated block comment."@
}

/// What scanning one lexeme yields.
pub struct LexStep {
    /// Position of the first character after the lexeme.
    pub next: int,
    /// The line counter after the lexeme.
    pub line: int,
    /// The at most one token the lexeme contributes.
    pub token: Option<TokenModel>,
    /// The at most one diagnostic the lexeme contributes.
    pub error: Option<ErrorModel>,
}

/// Everything a scan of the whole source yields.
pub struct LexOut {
    pub tokens: Seq<TokenModel>,
    pub errors: Seq<ErrorModel>,
}

/// A token of one character, whose lexeme is that character.
pub open spec fn simple_step(s: Seq<char>, pos: int, line: int, kind: TokenType) -> LexStep {
    LexStep {
        next: pos + 1,
        line,
        token: Some(
            TokenModel {
                token_type: kind,
                lexeme: s.subrange(pos, pos + 1),
                literal: None,
                line,
                col: pos + 1,
            },
        ),
        error: None,
    }
}

/// An operator of one character that a following `=` widens to two.
pub open spec fn op_step(
    s: Seq<char>,
    pos: int,
    line: int,
    one: TokenType,
    both: TokenType,
) -> LexStep {
    if pos + 1 < s.len() && s[pos + 1] == '=' {
        LexStep {
            next: pos + 2,
            line,
            token: Some(
                TokenModel {
                    token_type: both,
                    lexeme: s.subrange(pos, pos + 2),
                    literal: None,
                    line,
                    col: pos + 2,
                },
            ),
            error: None,
        }
    } else {
        simple_step(s, pos, line, one)
    }
}

/// A string literal: everything up to the next quote is its value, embedded
/// newlines advance the line counter, and a missing closing quote is a
/// diagnostic at the point scanning stopped.
pub open spec fn string_step(s: Seq<char>, pos: int, line: int) -> LexStep {
    let p = pos + 1;
    let e = quote_end(s, p);
    if e < s.len() {
        let content = s.subrange(p, e);
        let l2 = line + newlines(s, p, e);
        LexStep {
            next: e + 1,
            line: l2,
            token: Some(
                TokenModel {
                    token_type: TokenType::String,
                    lexeme: content,
                    literal: Some(LiteralModel::Str(content)),
                    line: l2,
                    col: e + 1,
                },
            ),
            error: None,
        }
    } else {
        let l2 = line + newlines(s, p, s.len() as int);
        let ec = if p < s.len() {
            s.len() - 1
        } else {
            s.len() as int
        };
        LexStep {
            next: s.len() as int,
            line: l2,
            token: None,
            error: Some(ErrorModel { message: msg_unterminated_string(), text: s, line: l2, col: ec }),
        }
    }
}

/// A numeral: a digit run, and a fractional part only when a `.` is
/// directly followed by another digit; otherwise the `.` is left for the
/// main scan as its own token.
pub open spec fn number_step(s: Seq<char>, pos: int, line: int) -> LexStep {
    let e1 = digits_end(s, pos);
    let e = if e1 < s.len() && s[e1] == '.' && e1 + 1 < s.len() && is_digit(s[e1 + 1]) {
        digits_end(s, e1 + 1)
    } else {
        e1
    };
    let text = s.subrange(pos, e);
    LexStep {
        next: e,
        line,
        token: Some(
            TokenModel {
                token_type: TokenType::Number,
                lexeme: text,
                literal: Some(LiteralModel::Number(text)),
                line,
                col: e,
            },
        ),
        error: None,
    }
}

/// An alphabetic run: a reserved word's kind on a case-sensitive hit in the
/// keyword table, otherwise an identifier carrying its text.
pub open spec fn ident_step(s: Seq<char>, pos: int, line: int) -> LexStep {
    let e = alnum_end(s, pos);
    let text = s.subrange(pos, e);
    match keyword_kind(text) {
        Some(k) => LexStep {
            next: e,
            line,
            token: Some(
                TokenModel { token_type: k, lexeme: text, literal: None, line, col: e },
            ),
            error: None,
        },
        None => LexStep {
            next: e,
            line,
            token: Some(
                TokenModel {
                    token_type: TokenType::Identifier,
                    lexeme: text,
                    literal: Some(LiteralModel::Identifier(text)),
                    line,
                    col: e,
                },
            ),
            error: None,
        },
    }
}

/// A nestable block comment; reaching the end of the source inside one is a
/// diagnostic at the end of the input.
pub open spec fn block_comment_step(s: Seq<char>, pos: int, line: int) -> LexStep {
    match bc_scan(s, pos + 2, 1) {
        Some(q) => LexStep {
            next: q,
            line: line + newlines(s, pos + 2, q),
            token: None,
            error: None,
        },
        None => {
            let l2 = line + newlines(s, pos + 2, s.len() as int);
            LexStep {
                next: s.len() as int,
                line: l2,
                token: None,
                error: Some(
                    ErrorModel {
                        message: msg_unterminated_comment(),
                        text: s,
                        line: l2,
                        col: s.len() as int,
                    },
                ),
            }
        },
    }
}

/// A `/` is a line comment, a block comment, or division.
pub open spec fn slash_step(s: Seq<char>, pos: int, line: int) -> LexStep {
    if pos + 1 < s.len() && s[pos + 1] == '/' {
        LexStep { next: comment_end(s, pos + 2), line, token: None, error: None }
    } else if pos + 1 < s.len() && s[pos + 1] == '*' {
        block_comment_step(s, pos, line)
    } else {
        simple_step(s, pos, line, TokenType::Slash)
    }
}

/// What scanning exactly one lexeme starting at `pos` yields, dispatched on
/// its first character.
pub open spec fn lex_step(s: Seq<char>, pos: int, line: int) -> LexStep
    recommends
        0 <= pos < s.len(),
{
    let c = s[pos];
    if c == '(' {
        simple_step(s, pos, line, TokenType::LeftParen)
    } else if c == ')' {
        simple_step(s, pos, line, TokenType::RightParen)
    } else if c == '{' {
        simple_step(s, pos, line, TokenType::LeftBrace)
    } else if c == '}' {
        simple_step(s, pos, line, TokenType::RightBrace)
    } else if c == ',' {
        simple_step(s, pos, line, TokenType::Comma)
    } else if c == '.' {
        simple_step(s, pos, line, TokenType::Dot)
    } else if c == '-' {
        simple_step(s, pos, line, TokenType::Minus)
    } else if c == '+' {
        simple_step(s, pos, line, TokenType::Plus)
    } else if c == ';' {
        simple_step(s, pos, line, TokenType::Semicolon)
    } else if c == '*' {
        simple_step(s, pos, line, TokenType::Star)
    } else if c == '?' {
        simple_step(s, pos, line, TokenType::Question)
    } else if c == ':' {
        simple_step(s, pos, line, TokenType::Colon)
    } else if c == '!' {
        op_step(s, pos, line, TokenType::Bang, TokenType::BangEqual)
    } else if c == '=' {
        op_step(s, pos, line, TokenType::Equal, TokenType::EqualEqual)
    } else if c == '>' {
        op_step(s, pos, line, TokenType::Greater, TokenType::GreaterEqual)
    } else if c == '<' {
        op_step(s, pos, line, TokenType::Less, TokenType::LessEqual)
    } else if c == '/' {
        slash_step(s, pos, line)
    } else if c == ' ' || c == '\r' || c == '\t' {
        LexStep { next: pos + 1, line, token: None, error: None }
    } else if c == '\n' {
        LexStep { next: pos + 1, line: line + 1, token: None, error: None }
    } else if c == '"' {
        string_step(s, pos, line)
    } else if is_digit(c) {
        number_step(s, pos, line)
    } else if is_alpha(c) {
        ident_step(s, pos, line)
    } else {
        LexStep {
            next: pos + 1,
            line,
            token: None,
            error: Some(
                ErrorModel { message: msg_unexpected_char(), text: s, line, col: pos + 1 },
            ),
        }
    }
}

/// The singleton or empty sequence an `Option` contributes.
pub open spec fn opt_seq<A>(o: Option<A>) -> Seq<A> {
    match o {
        Some(x) => seq![x],
        None => Seq::empty(),
    }
}

/// Everything scanning from `pos` with the given line counter yields, in
/// discovery order.
pub open spec fn lex_from(s: Seq<char>, pos: int, line: int) -> LexOut
    decreases s.len() - pos,
{
    if 0 <= pos < s.len() {
        let st = lex_step(s, pos, line);
        if pos < st.next <= s.len() {
            let rest = lex_from(s, st.next, st.line);
            LexOut {
                tokens: opt_seq(st.token) + rest.tokens,
                errors: opt_seq(st.error) + rest.errors,
            }
        } else {
            LexOut { tokens: Seq::empty(), errors: Seq::empty() }
        }
    } else {
        LexOut { tokens: Seq::empty(), errors: Seq::empty() }
    }
}

/// Bounds and character facts of a run: every character before the end
/// satisfies `f`, and the run stops only at the end of the source or at a
/// failing character.
pub proof fn lemma_run_end(s: Seq<char>, p: int, f: spec_fn(char) -> bool)
    requires
        0 <= p <= s.len(),
    ensures
        p <= run_end(s, p, f) <= s.len(),
        forall|i: int| p <= i < run_end(s, p, f) ==> f(s[i]),
        run_end(s, p, f) < s.len() ==> !f(s[run_end(s, p, f)]),
    decreases s.len() - p,
{
    if p < s.len() && f(s[p]) {
        lemma_run_end(s, p + 1, f);
    }
}

/// A position with `f` holding up to it and failing at it (or at the end)
/// is exactly where the run stops.
pub proof fn lemma_run_end_fix(s: Seq<char>, p: int, e: int, f: spec_fn(char) -> bool)
    requires
        0 <= p <= e <= s.len(),
        forall|i: int| p <= i < e ==> f(s[i]),
        e == s.len() || !f(s[e]),
    ensures
        run_end(s, p, f) == e,
    decreases e - p,
{
    if p < e {
        assert(f(s[p]));
        lemma_run_end_fix(s, p + 1, e, f);
    }
}

/// A newline count is non-negative and at most the width of its span.
pub proof fn lemma_newlines_bounds(s: Seq<char>, a: int, b: int)
    requires
        a <= b,
    ensures
        0 <= newlines(s, a, b) <= b - a,
    decreases b - a,
{
    if a < b {
        lemma_newlines_bounds(s, a + 1, b);
    }
}

/// Extending a span one character to the right adds that character's count.
pub proof fn lemma_newlines_snoc(s: Seq<char>, a: int, b: int)
    requires
        a <= b,
    ensures
        newlines(s, a, b + 1) == newlines(s, a, b) + (if 0 <= b < s.len() && s[b] == '\n' {
            1int
        } else {
            0int
        }),
    decreases b - a,
{
    if a < b {
        lemma_newlines_snoc(s, a + 1, b);
    } else {
        assert(newlines(s, b + 1, b + 1) == 0);
        assert(newlines(s, a, b) == 0);
    }
}

/// Where a block comment closes lies past its opening and within the
/// source.
pub proof fn lemma_bc_scan_bounds(s: Seq<char>, p: int, depth: int)
    ensures
        bc_scan(s, p, depth) matches Some(q) ==> p + 2 <= q <= s.len(),
    decreases s.len() - p,
{
    if 0 <= p && p < s.len() {
        if s[p] == '*' && p + 1 < s.len() && s[p + 1] == '/' {
            if depth > 1 {
                lemma_bc_scan_bounds(s, p + 2, depth - 1);
            }
        } else if s[p] == '/' && p + 1 < s.len() && s[p + 1] == '*' {
            lemma_bc_scan_bounds(s, p + 2, depth + 1);
        } else {
            lemma_bc_scan_bounds(s, p + 1, depth);
        }
    }
}

/// One lexeme always makes progress, stays within the source, and advances
/// the line counter by at most one line per consumed character.
pub proof fn lemma_lex_step_progress(s: Seq<char>, pos: int, line: int)
    requires
        0 <= pos < s.len(),
    ensures
        pos < lex_step(s, pos, line).next <= s.len(),
        line <= lex_step(s, pos, line).line <= line + (lex_step(s, pos, line).next - pos),
{
    let c = s[pos];
    lemma_run_end(s, pos, |ch: char| is_digit(ch));
    lemma_run_end(s, pos, |ch: char| is_alnum(ch));
    if pos + 1 <= s.len() {
        lemma_run_end(s, pos + 1, |ch: char| ch != '"');
        lemma_newlines_bounds(s, pos + 1, quote_end(s, pos + 1));
        lemma_newlines_bounds(s, pos + 1, s.len() as int);
    }
    if pos + 2 <= s.len() {
        lemma_run_end(s, pos + 2, |ch: char| ch != '\n');
        lemma_bc_scan_bounds(s, pos + 2, 1);
        lemma_newlines_bounds(s, pos + 2, s.len() as int);
        match bc_scan(s, pos + 2, 1) {
            Some(q) => lemma_newlines_bounds(s, pos + 2, q),
            None => (),
        }
    }
    if is_digit(c) {
        let e1 = digits_end(s, pos);
        assert(pos < e1) by {
            assert(run_end(s, pos, |ch: char| is_digit(ch)) != pos);
        }
        if e1 < s.len() && s[e1] == '.' && e1 + 1 < s.len() && is_digit(s[e1 + 1]) {
            lemma_run_end(s, e1 + 1, |ch: char| is_digit(ch));
        }
    }
    if is_alpha(c) {
        assert(pos < alnum_end(s, pos)) by {
            assert(run_end(s, pos, |ch: char| is_alnum(ch)) != pos);
        }
    }
}

} // verus!
