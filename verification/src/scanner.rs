//! The scanner: one left-to-right pass over the source text that emits the
//! ordered token sequence and the ordered diagnostic list, exactly as the
//! lexical grammar in `lex` prescribes.
//!
//! Columns are character offsets from the start of the source; the line
//! counter starts at 1 and advances at each newline, including newlines
//! embedded in string literals and block comments.  A lexical defect is
//! recovered locally: the scanner records a diagnostic and keeps scanning,
//! so one pass surfaces every lexical error in the source.

use vstd::prelude::*;
use vstd::seq_lib::*;
use vstd::string::*;

use crate::error_fmt::{Error, ErrorModel};
use crate::lex::{
    alnum_end, bc_scan, block_comment_step, digits_end, ident_step, is_alnum, is_alpha, is_digit,
    keyword_kind, lemma_lex_step_progress, lemma_newlines_bounds, lemma_newlines_snoc,
    lemma_run_end_fix, lex_from, lex_step, newlines, number_step, op_step, opt_seq, quote_end,
    run_end, slash_step, string_step, LexStep,
};
use crate::token::{Literal, Token, TokenModel, TokenType};

verus! {

/// The token models of a token vector, in order.
pub open spec fn token_views(ts: Seq<Token>) -> Seq<TokenModel> {
    ts.map_values(|t: Token| t@)
}

/// The error models of a diagnostic vector, in order.
pub open spec fn error_views(es: Seq<Error>) -> Seq<ErrorModel> {
    es.map_values(|e: Error| e@)
}

proof fn lemma_token_views_push(ts: Seq<Token>, t: Token)
    ensures
        token_views(ts.push(t)) == token_views(ts) + seq![t@],
{
    assert(token_views(ts.push(t)) =~= token_views(ts) + seq![t@]);
}

proof fn lemma_error_views_push(es: Seq<Error>, e: Error)
    ensures
        error_views(es.push(e)) == error_views(es) + seq![e@],
{
    assert(error_views(es.push(e)) =~= error_views(es) + seq![e@]);
}

/// A decimal digit, executably.
fn is_digit_ch(c: char) -> (b: bool)
    ensures
        b == is_digit(c),
{
    let u = c as u32;
    48 <= u && u <= 57
}

/// An ASCII letter, executably.
fn is_alpha_ch(c: char) -> (b: bool)
    ensures
        b == is_alpha(c),
{
    let u = c as u32;
    (65 <= u && u <= 90) || (97 <= u && u <= 122)
}

/// An identifier-continuing character, executably.
fn is_alnum_ch(c: char) -> (b: bool)
    ensures
        b == is_alnum(c),
{
    is_digit_ch(c) || is_alpha_ch(c)
}

/// The keyword kind of an identifier text, or `None` for a plain
/// identifier; the lookup is case-sensitive.
fn keyword_lookup(t: &String) -> (r: Option<TokenType>)
    ensures
        r == keyword_kind(t@),
{
    if t.eq(&String::from_str("and")) {
        Some(TokenType::And)
    } else if t.eq(&String::from_str("class")) {
        Some(TokenType::Class)
    } else if t.eq(&String::from_str("else")) {
        Some(TokenType::Else)
    } else if t.eq(&String::from_str("false")) {
        Some(TokenType::False)
    } else if t.eq(&String::from_str("fun")) {
        Some(TokenType::Fun)
    } else if t.eq(&String::from_str("for")) {
        Some(TokenType::For)
    } else if t.eq(&String::from_str("if")) {
        Some(TokenType::If)
    } else if t.eq(&String::from_str("nil")) {
        Some(TokenType::Nil)
    } else if t.eq(&String::from_str("or")) {
        Some(TokenType::Or)
    } else if t.eq(&String::from_str("print")) {
        Some(TokenType::Print)
    } else if t.eq(&String::from_str("return")) {
        Some(TokenType::Return)
    } else if t.eq(&String::from_str("super")) {
        Some(TokenType::Super)
    } else if t.eq(&String::from_str("this")) {
        Some(TokenType::This)
    } else if t.eq(&String::from_str("true")) {
        Some(TokenType::True)
    } else if t.eq(&String::from_str("var")) {
        Some(TokenType::Var)
    } else if t.eq(&String::from_str("while")) {
        Some(TokenType::While)
    } else if t.eq(&String::from_str("eof")) {
        Some(TokenType::Eof)
    } else {
        None
    }
}

/// The scanner's state: the source, the character offset `col` of the next
/// unconsumed character, the offset `start` of the lexeme being scanned,
/// the line counter, and the token and diagnostic lists grown so far.
pub struct Scanner {
    pub source: String,
    /// The character length of `source`.
    pub n: usize,
    pub tokens: Vec<Token>,
    pub errors: Vec<Error>,
    pub start: usize,
    pub col: usize,
    pub line: usize,
}

/// How one scanned lexeme relates a scanner state to its successor: the
/// cursor and line counter move as the step says, and exactly the step's
/// token and diagnostic are appended.
pub open spec fn step_result(pre: Scanner, post: Scanner, st: LexStep) -> bool {
    &&& post.source == pre.source
    &&& post.n == pre.n
    &&& post.start == pre.start
    &&& post.col == st.next
    &&& post.line == st.line
    &&& token_views(post.tokens@) == token_views(pre.tokens@) + opt_seq(st.token)
    &&& error_views(post.errors@) == error_views(pre.errors@) + opt_seq(st.error)
}

impl Scanner {
    /// Internal consistency: the cached length is the source's, the cursor
    /// stays within the source, and the line counter never exceeds one more
    /// than the number of characters consumed.
    pub open spec fn wf(&self) -> bool {
        &&& self.n == self.source@.len()
        &&& self.n < usize::MAX
        &&& self.col <= self.n
        &&& 1 <= self.line
        &&& self.line <= self.col + 1
    }

    pub fn new(source: String) -> (r: Self)
        requires
            source@.len() < usize::MAX,
        ensures
            r.wf(),
            r.source == source,
            r.col == 0,
            r.start == 0,
            r.line == 1,
            r.tokens@ == Seq::<Token>::empty(),
            r.errors@ == Seq::<Error>::empty(),
    {
        let n = source.as_str().unicode_len();
        Scanner { source, n, tokens: Vec::new(), errors: Vec::new(), start: 0, col: 0, line: 1 }
    }

    /// The character at the cursor (or one past it), without consuming it.
    pub fn peek(&self, one_extra: bool) -> (r: Option<char>)
        requires
            self.wf(),
        ensures
            ({
                let i = self.col + (if one_extra {
                    1int
                } else {
                    0int
                });
                if i < self.n {
                    r == Some(self.source@[i])
                } else {
                    r is None
                }
            }),
    {
        let i = if one_extra {
            self.col + 1
        } else {
            self.col
        };
        if i < self.n {
            Some(self.source.as_str().get_char(i))
        } else {
            None
        }
    }

    /// Consumes and returns the character at the cursor, or `None` at the
    /// end of the source.
    pub fn advance(&mut self) -> (r: Option<char>)
        requires
            old(self).wf(),
        ensures
            final(self).wf(),
            final(self).source == old(self).source,
            final(self).n == old(self).n,
            final(self).start == old(self).start,
            final(self).line == old(self).line,
            final(self).tokens == old(self).tokens,
            final(self).errors == old(self).errors,
            if old(self).col < old(self).n {
                r == Some(old(self).source@[old(self).col as int]) && final(self).col == old(
                    self,
                ).col + 1
            } else {
                r is None && final(self).col == old(self).col
            },
    {
        if self.col < self.n {
            let c = self.source.as_str().get_char(self.col);
            self.col = self.col + 1;
            Some(c)
        } else {
            None
        }
    }

    /// Consumes the character at the cursor exactly when it is `expected`.
    pub fn advance_if(&mut self, expected: char) -> (r: bool)
        requires
            old(self).wf(),
        ensures
            final(self).wf(),
            final(self).source == old(self).source,
            final(self).n == old(self).n,
            final(self).start == old(self).start,
            final(self).line == old(self).line,
            final(self).tokens == old(self).tokens,
            final(self).errors == old(self).errors,
            r == (old(self).col < old(self).n && old(self).source@[old(self).col as int]
                == expected),
            final(self).col == old(self).col + (if r {
                1int
            } else {
                0int
            }),
    {
        if self.col < self.n {
            let c = self.source.as_str().get_char(self.col);
            if c == expected {
                self.col = self.col + 1;
                return true;
            }
        }
        false
    }

    /// Appends a token whose lexeme is the span scanned since `start`.
    fn add_token(&mut self, kind: TokenType)
        requires
            old(self).wf(),
            old(self).start <= old(self).col,
        ensures
            final(self).wf(),
            final(self).source == old(self).source,
            final(self).n == old(self).n,
            final(self).start == old(self).start,
            final(self).col == old(self).col,
            final(self).line == old(self).line,
            final(self).errors == old(self).errors,
            token_views(final(self).tokens@) == token_views(old(self).tokens@) + seq![
                TokenModel {
                    token_type: kind,
                    lexeme: old(self).source@.subrange(
                        old(self).start as int,
                        old(self).col as int,
                    ),
                    literal: None,
                    line: old(self).line as int,
                    col: old(self).col as int,
                },
            ],
    {
        let lexeme = String::from_str(self.source.as_str().substring_char(self.start, self.col));
        let t = Token::new(kind, lexeme, None, self.line, self.col);
        proof {
            lemma_token_views_push(self.tokens@, t);
        }
        self.tokens.push(t);
    }

    /// Appends a diagnostic at the cursor, prefixed as a lexical error and
    /// carrying the source text for rendering.
    fn add_error(&mut self, message: &str)
        requires
            old(self).wf(),
        ensures
            final(self).wf(),
            final(self).source == old(self).source,
            final(self).n == old(self).n,
            final(self).start == old(self).start,
            final(self).col == old(self).col,
            final(self).line == old(self).line,
            final(self).tokens == old(self).tokens,
            error_views(final(self).errors@) == error_views(old(self).errors@) + seq![
                ErrorModel {
                    message: "Lexical Error: "@ + message@,
                    text: old(self).source@,
                    line: old(self).line as int,
                    col: old(self).col as int,
                },
            ],
    {
        let full = String::from_str("Lexical Error: ").concat(message);
        let e = Error::new(full, self.source.clone(), self.line, self.col);
        proof {
            lemma_error_views_push(self.errors@, e);
        }
        self.errors.push(e);
    }

    /// An operator that a following `=` widens from `one` to `both`.
    fn op_token(&mut self, one: TokenType, both: TokenType)
        requires
            old(self).wf(),
            old(self).start < old(self).n,
            old(self).col == old(self).start + 1,
        ensures
            step_result(
                *old(self),
                *final(self),
                op_step(
                    old(self).source@,
                    old(self).start as int,
                    old(self).line as int,
                    one,
                    both,
                ),
            ),
    {
        if self.advance_if('=') {
            self.add_token(both);
        } else {
            self.add_token(one);
        }
        proof {
            assert(error_views(self.errors@) =~= error_views(self.errors@) + Seq::<
                ErrorModel,
            >::empty());
        }
    }

    /// True when the next unconsumed character exists and is a digit.
    fn next_is_digit(&self) -> (r: bool)
        requires
            self.wf(),
        ensures
            r == (self.col < self.n && is_digit(self.source@[self.col as int])),
    {
        if self.col < self.n {
            is_digit_ch(self.source.as_str().get_char(self.col))
        } else {
            false
        }
    }

    /// True when the next unconsumed character exists and may continue an
    /// identifier.
    fn next_is_alnum(&self) -> (r: bool)
        requires
            self.wf(),
        ensures
            r == (self.col < self.n && is_alnum(self.source@[self.col as int])),
    {
        if self.col < self.n {
            is_alnum_ch(self.source.as_str().get_char(self.col))
        } else {
            false
        }
    }

    /// Consumes the digit run starting at the cursor.
    fn digit_run(&mut self)
        requires
            old(self).wf(),
        ensures
            final(self).wf(),
            final(self).source == old(self).source,
            final(self).n == old(self).n,
            final(self).start == old(self).start,
            final(self).line == old(self).line,
            final(self).tokens == old(self).tokens,
            final(self).errors == old(self).errors,
            old(self).col <= final(self).col <= final(self).n,
            final(self).col == run_end(
                old(self).source@,
                old(self).col as int,
                |c: char| is_digit(c),
            ),
    {
        let ghost pre = *self;
        while self.next_is_digit()
            invariant
                self.wf(),
                self.source == pre.source,
                self.n == pre.n,
                self.start == pre.start,
                self.line == pre.line,
                self.tokens == pre.tokens,
                self.errors == pre.errors,
                pre.col <= self.col <= self.n,
                self.line <= pre.col + 1,
                forall|i: int| pre.col <= i < self.col ==> is_digit(pre.source@[i]),
            decreases self.n - self.col,
        {
            self.col = self.col + 1;
        }
        proof {
            lemma_run_end_fix(
                pre.source@,
                pre.col as int,
                self.col as int,
                |c: char| is_digit(c),
            );
        }
    }

    /// A numeral: the digit run, and a fractional part only when a dot is
    /// directly followed by another digit.
    fn number(&mut self)
        requires
            old(self).wf(),
            old(self).start < old(self).n,
            old(self).col == old(self).start + 1,
            is_digit(old(self).source@[old(self).start as int]),
        ensures
            step_result(
                *old(self),
                *final(self),
                number_step(old(self).source@, old(self).start as int, old(self).line as int),
            ),
    {
        let ghost s = self.source@;
        let ghost p0 = self.start as int;
        self.digit_run();
        proof {
            // The run from the first digit is the run from one past it.
            assert(digits_end(s, p0) == self.col);
        }
        let ghost e1 = self.col as int;
        if self.col < self.n {
            let c = self.source.as_str().get_char(self.col);
            if c == '.' && self.col + 1 < self.n {
                let c2 = self.source.as_str().get_char(self.col + 1);
                if is_digit_ch(c2) {
                    self.col = self.col + 1;
                    self.digit_run();
                    proof {
                        assert(digits_end(s, e1 + 1) == self.col);
                    }
                }
            }
        }
        let text = String::from_str(self.source.as_str().substring_char(self.start, self.col));
        let lexeme = text.clone();
        let t = Token::new(
            TokenType::Number,
            lexeme,
            Some(Literal::Number(text)),
            self.line,
            self.col,
        );
        proof {
            lemma_token_views_push(self.tokens@, t);
        }
        self.tokens.push(t);
        proof {
            assert(error_views(self.errors@) =~= error_views(self.errors@) + Seq::<
                ErrorModel,
            >::empty());
        }
    }

    /// An alphabetic run: a keyword on a table hit, otherwise an identifier
    /// carrying its text.
    fn identifier(&mut self)
        requires
            old(self).wf(),
            old(self).start < old(self).n,
            old(self).col == old(self).start + 1,
            is_alpha(old(self).source@[old(self).start as int]),
        ensures
            step_result(
                *old(self),
                *final(self),
                ident_step(old(self).source@, old(self).start as int, old(self).line as int),
            ),
    {
        let ghost s = self.source@;
        let ghost p0 = self.start as int;
        let ghost pre = *self;
        while self.next_is_alnum()
            invariant
                self.wf(),
                self.source == pre.source,
                self.n == pre.n,
                self.start == pre.start,
                self.line == pre.line,
                self.tokens == pre.tokens,
                self.errors == pre.errors,
                pre.col <= self.col <= self.n,
                self.line <= pre.col + 1,
                forall|i: int| pre.col <= i < self.col ==> is_alnum(pre.source@[i]),
            decreases self.n - self.col,
        {
            self.col = self.col + 1;
        }
        proof {
            lemma_run_end_fix(s, pre.col as int, self.col as int, |c: char| is_alnum(c));
            assert(alnum_end(s, p0) == self.col);
        }
        let text = String::from_str(self.source.as_str().substring_char(self.start, self.col));
        match keyword_lookup(&text) {
            Some(kind) => {
                let t = Token::new(kind, text, None, self.line, self.col);
                proof {
                    lemma_token_views_push(self.tokens@, t);
                }
                self.tokens.push(t);
            },
            None => {
                let lexeme = text.clone();
                let t = Token::new(
                    TokenType::Identifier,
                    lexeme,
                    Some(Literal::Identifier(text)),
                    self.line,
                    self.col,
                );
                proof {
                    lemma_token_views_push(self.tokens@, t);
                }
                self.tokens.push(t);
            },
        }
        proof {
            assert(error_views(self.errors@) =~= error_views(self.errors@) + Seq::<
                ErrorModel,
            >::empty());
        }
    }

    /// A string literal: everything up to the closing quote is its value
    /// and embedded newlines advance the line counter; a source that ends
    /// first yields an unterminated-string diagnostic instead of a token.
    fn string(&mut self)
        requires
            old(self).wf(),
            old(self).start < old(self).n,
            old(self).col == old(self).start + 1,
            old(self).source@[old(self).start as int] == '"',
        ensures
            step_result(
                *old(self),
                *final(self),
                string_step(old(self).source@, old(self).start as int, old(self).line as int),
            ),
    {
        let ghost s = self.source@;
        let ghost pre = *self;
        let ghost p = self.col as int;
        loop
            invariant
                self.wf(),
                s == pre.source@,
                p == pre.col as int,
                self.source == pre.source,
                self.n == pre.n,
                self.start == pre.start,
                self.tokens == pre.tokens,
                self.errors == pre.errors,
                pre.col <= self.col <= self.n,
                pre.line <= self.line,
                self.line == pre.line + newlines(s, p, self.col as int),
                forall|i: int| p <= i < self.col ==> s[i] != '"',
            ensures
                self.source == pre.source,
                self.n == pre.n,
                self.start == pre.start,
                self.tokens == pre.tokens,
                self.errors == pre.errors,
                self.wf(),
                pre.col <= self.col <= self.n,
                self.line == pre.line + newlines(s, p, self.col as int),
                forall|i: int| p <= i < self.col ==> s[i] != '"',
                self.col == self.n || s[self.col as int] == '"',
            decreases self.n - self.col,
        {
            if self.col >= self.n {
                break ;
            }
            let c = self.source.as_str().get_char(self.col);
            if c == '"' {
                break ;
            }
            proof {
                lemma_newlines_snoc(s, p, self.col as int);
                lemma_newlines_bounds(s, p, self.col as int);
            }
            if c == '\n' {
                self.line = self.line + 1;
            }
            self.col = self.col + 1;
        }
        proof {
            lemma_run_end_fix(s, p, self.col as int, |c: char| c != '"');
            assert(quote_end(s, p) == self.col);
        }
        if self.col < self.n {
            let content = String::from_str(
                self.source.as_str().substring_char(self.start + 1, self.col),
            );
            self.col = self.col + 1;
            let lexeme = content.clone();
            let t = Token::new(
                TokenType::String,
                lexeme,
                Some(Literal::Str(content)),
                self.line,
                self.col,
            );
            proof {
                lemma_token_views_push(self.tokens@, t);
            }
            self.tokens.push(t);
            proof {
                assert(error_views(self.errors@) =~= error_views(self.errors@) + Seq::<
                    ErrorModel,
                >::empty());
            }
        } else {
            let ec = if self.n > self.start + 1 {
                self.n - 1
            } else {
                self.n
            };
            let full = String::from_str("Lexical Error: ").concat("Unterminated string.");
            let e = Error::new(full, self.source.clone(), self.line, ec);
            proof {
                lemma_error_views_push(self.errors@, e);
            }
            self.errors.push(e);
            proof {
                assert(token_views(self.tokens@) =~= token_views(self.tokens@) + Seq::<
                    TokenModel,
                >::empty());
            }
        }
    }

    /// The body of a line comment: everything up to (but not including) the
    /// next newline, which the main scan counts itself.
    fn line_comment(&mut self)
        requires
            old(self).wf(),
        ensures
            final(self).wf(),
            final(self).source == old(self).source,
            final(self).n == old(self).n,
            final(self).start == old(self).start,
            final(self).line == old(self).line,
            final(self).tokens == old(self).tokens,
            final(self).errors == old(self).errors,
            old(self).col <= final(self).col <= final(self).n,
            final(self).col == run_end(
                old(self).source@,
                old(self).col as int,
                |c: char| c != '\n',
            ),
    {
        let ghost pre = *self;
        loop
            invariant
                self.wf(),
                self.source == pre.source,
                self.n == pre.n,
                self.start == pre.start,
                self.line == pre.line,
                self.tokens == pre.tokens,
                self.errors == pre.errors,
                pre.col <= self.col <= self.n,
                self.line <= pre.col + 1,
                forall|i: int| pre.col <= i < self.col ==> pre.source@[i] != '\n',
            ensures
                self.source == pre.source,
                self.n == pre.n,
                self.start == pre.start,
                self.line == pre.line,
                self.tokens == pre.tokens,
                self.errors == pre.errors,
                self.wf(),
                pre.col <= self.col <= self.n,
                forall|i: int| pre.col <= i < self.col ==> pre.source@[i] != '\n',
                self.col == self.n || pre.source@[self.col as int] == '\n',
            decreases self.n - self.col,
        {
            if self.col >= self.n {
                break ;
            }
            let c = self.source.as_str().get_char(self.col);
            if c == '\n' {
                break ;
            }
            self.col = self.col + 1;
        }
        proof {
            lemma_run_end_fix(pre.source@, pre.col as int, self.col as int, |c: char| c != '\n');
        }
    }

    /// The body of a block comment, entered just past its opening `/*`.  A
    /// `/*` on the way opens a nested comment that its own `*/` must close;
    /// a source that ends first yields an unterminated-comment diagnostic
    /// at the end of the input.
    fn block_comment(&mut self)
        requires
            old(self).wf(),
            old(self).start + 1 < old(self).n,
            old(self).col == old(self).start + 2,
            old(self).source@[old(self).start as int] == '/',
            old(self).source@[old(self).start as int + 1] == '*',
        ensures
            step_result(
                *old(self),
                *final(self),
                block_comment_step(
                    old(self).source@,
                    old(self).start as int,
                    old(self).line as int,
                ),
            ),
    {
        let ghost s = self.source@;
        let ghost pre = *self;
        let ghost p0 = self.col as int;
        let mut depth: usize = 1;
        let mut closed = false;
        loop
            invariant_except_break
                !closed,
                bc_scan(s, self.col as int, depth as int) == bc_scan(s, p0, 1),
            invariant
                self.wf(),
                s == pre.source@,
                p0 == pre.col as int,
                self.source == pre.source,
                self.n == pre.n,
                self.start == pre.start,
                self.tokens == pre.tokens,
                self.errors == pre.errors,
                pre.col <= self.col <= self.n,
                1 <= depth,
                2 * (depth - 1) <= self.col - p0,
                self.line == pre.line + newlines(s, p0, self.col as int),
                closed ==> bc_scan(s, p0, 1) == Some(self.col as int),
            ensures
                self.source == pre.source,
                self.n == pre.n,
                self.start == pre.start,
                self.tokens == pre.tokens,
                self.errors == pre.errors,
                self.wf(),
                pre.col <= self.col <= self.n,
                self.line == pre.line + newlines(s, p0, self.col as int),
                closed ==> bc_scan(s, p0, 1) == Some(self.col as int),
                !closed ==> bc_scan(s, p0, 1) is None && self.col == self.n,
            decreases self.n - self.col,
        {
            if self.col >= self.n {
                break ;
            }
            let c = self.source.as_str().get_char(self.col);
            if c == '*' && self.col + 1 < self.n && self.source.as_str().get_char(self.col + 1)
                == '/' {
                proof {
                    lemma_newlines_snoc(s, p0, self.col as int);
                    lemma_newlines_snoc(s, p0, self.col as int + 1);
                }
                self.col = self.col + 2;
                if depth == 1 {
                    closed = true;
                    break ;
                } else {
                    depth = depth - 1;
                }
            } else if c == '/' && self.col + 1 < self.n && self.source.as_str().get_char(
                self.col + 1,
            ) == '*' {
                proof {
                    lemma_newlines_snoc(s, p0, self.col as int);
                    lemma_newlines_snoc(s, p0, self.col as int + 1);
                }
                self.col = self.col + 2;
                depth = depth + 1;
            } else {
                proof {
                    lemma_newlines_snoc(s, p0, self.col as int);
                    lemma_newlines_bounds(s, p0, self.col as int);
                }
                if c == '\n' {
                    self.line = self.line + 1;
                }
                self.col = self.col + 1;
            }
        }
        if !closed {
            self.add_error("Unterminated block comment.");
            proof {
                assert(token_views(self.tokens@) =~= token_views(self.tokens@) + Seq::<
                    TokenModel,
                >::empty());
            }
        } else {
            proof {
                assert(token_views(self.tokens@) =~= token_views(self.tokens@) + Seq::<
                    TokenModel,
                >::empty());
                assert(error_views(self.errors@) =~= error_views(self.errors@) + Seq::<
                    ErrorModel,
                >::empty());
            }
        }
    }

    /// A `/` is a line comment, a block comment, or division.
    fn slash(&mut self)
        requires
            old(self).wf(),
            old(self).start < old(self).n,
            old(self).col == old(self).start + 1,
            old(self).source@[old(self).start as int] == '/',
        ensures
            step_result(
                *old(self),
                *final(self),
                slash_step(old(self).source@, old(self).start as int, old(self).line as int),
            ),
    {
        if self.advance_if('/') {
            self.line_comment();
            proof {
                assert(token_views(self.tokens@) =~= token_views(self.tokens@) + Seq::<
                    TokenModel,
                >::empty());
                assert(error_views(self.errors@) =~= error_views(self.errors@) + Seq::<
                    ErrorModel,
                >::empty());
            }
        } else if self.advance_if('*') {
            self.block_comment();
        } else {
            self.add_token(TokenType::Slash);
            proof {
                assert(error_views(self.errors@) =~= error_views(self.errors@) + Seq::<
                    ErrorModel,
                >::empty());
            }
        }
    }

    /// Scans exactly one lexeme at the cursor, dispatched on its first
    /// character, emitting at most one token or at most one diagnostic.
    fn scan_lexeme(&mut self)
        requires
            old(self).wf(),
            old(self).col < old(self).n,
            old(self).start == old(self).col,
        ensures
            step_result(
                *old(self),
                *final(self),
                lex_step(old(self).source@, old(self).col as int, old(self).line as int),
            ),
    {
        let c = self.advance().unwrap();
        proof {
            assert(c == old(self).source@[old(self).start as int]);
        }
        if c == '(' {
            self.add_token(TokenType::LeftParen);
            proof {
                self.lemma_no_new_errors(*old(self));
            }
        } else if c == ')' {
            self.add_token(TokenType::RightParen);
            proof {
                self.lemma_no_new_errors(*old(self));
            }
        } else if c == '{' {
            self.add_token(TokenType::LeftBrace);
            proof {
                self.lemma_no_new_errors(*old(self));
            }
        } else if c == '}' {
            self.add_token(TokenType::RightBrace);
            proof {
                self.lemma_no_new_errors(*old(self));
            }
        } else if c == ',' {
            self.add_token(TokenType::Comma);
            proof {
                self.lemma_no_new_errors(*old(self));
            }
        } else if c == '.' {
            self.add_token(TokenType::Dot);
            proof {
                self.lemma_no_new_errors(*old(self));
            }
        } else if c == '-' {
            self.add_token(TokenType::Minus);
            proof {
                self.lemma_no_new_errors(*old(self));
            }
        } else if c == '+' {
            self.add_token(TokenType::Plus);
            proof {
                self.lemma_no_new_errors(*old(self));
            }
        } else if c == ';' {
            self.add_token(TokenType::Semicolon);
            proof {
                self.lemma_no_new_errors(*old(self));
            }
        } else if c == '*' {
            self.add_token(TokenType::Star);
            proof {
                self.lemma_no_new_errors(*old(self));
            }
        } else if c == '?' {
            self.add_token(TokenType::Question);
            proof {
                self.lemma_no_new_errors(*old(self));
            }
        } else if c == ':' {
            self.add_token(TokenType::Colon);
            proof {
                self.lemma_no_new_errors(*old(self));
            }
        } else if c == '!' {
            self.op_token(TokenType::Bang, TokenType::BangEqual);
        } else if c == '=' {
            self.op_token(TokenType::Equal, TokenType::EqualEqual);
        } else if c == '>' {
            self.op_token(TokenType::Greater, TokenType::GreaterEqual);
        } else if c == '<' {
            self.op_token(TokenType::Less, TokenType::LessEqual);
        } else if c == '/' {
            self.slash();
        } else if c == ' ' || c == '\r' || c == '\t' {
            proof {
                self.lemma_no_new_tokens(*old(self));
                self.lemma_no_new_errors(*old(self));
            }
        } else if c == '\n' {
            self.line = self.line + 1;
            proof {
                self.lemma_no_new_tokens(*old(self));
                self.lemma_no_new_errors(*old(self));
            }
        } else if c == '"' {
            self.string();
        } else if is_digit_ch(c) {
            self.number();
        } else if is_alpha_ch(c) {
            self.identifier();
        } else {
            self.add_error("Unexpected character.");
            proof {
                self.lemma_no_new_tokens(*old(self));
            }
        }
    }

    /// An unchanged token list is itself with nothing appended.
    proof fn lemma_no_new_tokens(&self, pre: Scanner)
        requires
            self.tokens == pre.tokens,
        ensures
            token_views(self.tokens@) == token_views(pre.tokens@) + Seq::<TokenModel>::empty(),
    {
        assert(token_views(self.tokens@) =~= token_views(pre.tokens@) + Seq::<
            TokenModel,
        >::empty());
    }

    /// An unchanged diagnostic list is itself with nothing appended.
    proof fn lemma_no_new_errors(&self, pre: Scanner)
        requires
            self.errors == pre.errors,
        ensures
            error_views(self.errors@) == error_views(pre.errors@) + Seq::<ErrorModel>::empty(),
    {
        assert(error_views(self.errors@) =~= error_views(pre.errors@) + Seq::<
            ErrorModel,
        >::empty());
    }

    /// Whether any diagnostic has been recorded.
    pub fn has_errors(&self) -> (r: bool)
        ensures
            r == (self.errors@.len() != 0),
    {
        self.errors.len() != 0
    }

    /// Scans the whole input: afterwards the token and diagnostic lists
    /// hold exactly what the lexical grammar prescribes for it, in
    /// discovery order.  Any earlier state of the scanner is discarded.
    pub fn scan_tokens(&mut self, input: String)
        requires
            input@.len() < usize::MAX,
        ensures
            final(self).wf(),
            final(self).source@ == input@,
            token_views(final(self).tokens@) == lex_from(input@, 0, 1).tokens,
            error_views(final(self).errors@) == lex_from(input@, 0, 1).errors,
    {
        self.source = input;
        self.n = self.source.as_str().unicode_len();
        self.col = 0;
        self.start = 0;
        self.line = 1;
        self.tokens = Vec::new();
        self.errors = Vec::new();
        let ghost s = self.source@;
        proof {
            assert(token_views(self.tokens@) + lex_from(s, 0, 1).tokens =~= lex_from(
                s,
                0,
                1,
            ).tokens);
            assert(error_views(self.errors@) + lex_from(s, 0, 1).errors =~= lex_from(
                s,
                0,
                1,
            ).errors);
        }
        while self.col < self.n
            invariant
                self.wf(),
                self.source@ == s,
                token_views(self.tokens@) + lex_from(s, self.col as int, self.line as int).tokens
                    == lex_from(s, 0, 1).tokens,
                error_views(self.errors@) + lex_from(s, self.col as int, self.line as int).errors
                    == lex_from(s, 0, 1).errors,
            decreases self.n - self.col,
        {
            self.start = self.col;
            let ghost pre = *self;
            self.scan_lexeme();
            proof {
                lemma_lex_step_progress(s, pre.col as int, pre.line as int);
                let st = lex_step(s, pre.col as int, pre.line as int);
                let rest = lex_from(s, st.next, st.line);
                assert(lex_from(s, pre.col as int, pre.line as int).tokens == opt_seq(st.token)
                    + rest.tokens);
                assert(lex_from(s, pre.col as int, pre.line as int).errors == opt_seq(st.error)
                    + rest.errors);
                assert((token_views(pre.tokens@) + opt_seq(st.token)) + rest.tokens =~= token_views(
                    pre.tokens@,
                ) + (opt_seq(st.token) + rest.tokens));
                assert((error_views(pre.errors@) + opt_seq(st.error)) + rest.errors =~= error_views(
                    pre.errors@,
                ) + (opt_seq(st.error) + rest.errors));
            }
        }
        proof {
            assert(token_views(self.tokens@) + lex_from(
                s,
                self.col as int,
                self.line as int,
            ).tokens =~= token_views(self.tokens@));
            assert(error_views(self.errors@) + lex_from(
                s,
                self.col as int,
                self.line as int,
            ).errors =~= error_views(self.errors@));
        }
    }
}

impl Default for Scanner {
    /// A scanner over the empty source.
    fn default() -> (r: Self)
        ensures
            r.wf(),
            r.source@ == Seq::<char>::empty(),
            r.col == 0,
            r.start == 0,
            r.line == 1,
            r.tokens@ == Seq::<Token>::empty(),
            r.errors@ == Seq::<Error>::empty(),
    {
        Scanner::new(String::new())
    }
}

/// Scans a complete source text: all its tokens when it is lexically
/// clean, otherwise all its diagnostics in discovery order — never both.
pub fn scan_tokens(input: &String) -> (r: Result<Vec<Token>, Vec<Error>>)
    requires
        input@.len() < usize::MAX,
    ensures
        ({
            let out = lex_from(input@, 0, 1);
            match r {
                Ok(tokens) => out.errors.len() == 0 && token_views(tokens@) == out.tokens,
                Err(errors) => out.errors.len() > 0 && error_views(errors@) == out.errors,
            }
        }),
{
    let mut scanner = Scanner::default();
    scanner.scan_tokens(input.clone());
    let Scanner { tokens, errors, .. } = scanner;
    if errors.len() > 0 {
        Err(errors)
    } else {
        Ok(tokens)
    }
}

} // verus!
