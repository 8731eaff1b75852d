//! Laws of the lexical grammar, stated and proved over the whole input
//! space.
//!
//! The central one is round-trip idempotence: rendering a well-formed
//! token sequence lexeme for lexeme and scanning the rendering again
//! reproduces the token-kind sequence exactly, with no diagnostics.
//! String tokens are the one exclusion: their lexeme is the contents
//! without the quotes, so their rendering does not scan back to a string.
//! Alongside it stand the single-lexeme laws: every punctuation text scans
//! to exactly its kind, every alphabetic run to its keyword kind or to an
//! identifier carrying its text, and every quote-free string body to one
//! string token whose value and line count are preserved.

use vstd::prelude::*;
use vstd::string::*;

use crate::lex::{
    alnum_end, digits_end, is_alnum, is_alpha, is_digit, keyword_kind, lemma_lex_step_progress,
    lemma_run_end, lemma_run_end_fix, lex_from, lex_step, newlines, opt_seq, quote_end, run_end,
};
use crate::scanner::token_views;
use crate::token::{LiteralModel, Token, TokenModel, TokenType};

verus! {

/// The fixed text of a punctuation or operator kind, if it has one.
pub open spec fn punct_lexeme(k: TokenType) -> Option<Seq<char>> {
    match k {
        TokenType::LeftParen => Some("("@),
        TokenType::RightParen => Some(")"@),
        TokenType::LeftBrace => Some("{"@),
        TokenType::RightBrace => Some("}"@),
        TokenType::Comma => Some(","@),
        TokenType::Dot => Some("."@),
        TokenType::Semicolon => Some(";"@),
        TokenType::Minus => Some("-"@),
        TokenType::Plus => Some("+"@),
        TokenType::Slash => Some("/"@),
        TokenType::Star => Some("*"@),
        TokenType::Bang => Some("!"@),
        TokenType::BangEqual => Some("!="@),
        TokenType::Equal => Some("="@),
        TokenType::EqualEqual => Some("=="@),
        TokenType::Greater => Some(">"@),
        TokenType::GreaterEqual => Some(">="@),
        TokenType::Less => Some("<"@),
        TokenType::LessEqual => Some("<="@),
        TokenType::Question => Some("?"@),
        TokenType::Colon => Some(":"@),
        _ => None,
    }
}

/// The fixed text of a keyword kind, if it has one.
pub open spec fn keyword_text(k: TokenType) -> Option<Seq<char>> {
    match k {
        TokenType::And => Some("and"@),
        TokenType::Class => Some("class"@),
        TokenType::Else => Some("else"@),
        TokenType::False => Some("false"@),
        TokenType::Fun => Some("fun"@),
        TokenType::For => Some("for"@),
        TokenType::If => Some("if"@),
        TokenType::Nil => Some("nil"@),
        TokenType::Or => Some("or"@),
        TokenType::Print => Some("print"@),
        TokenType::Return => Some("return"@),
        TokenType::Super => Some("super"@),
        TokenType::This => Some("this"@),
        TokenType::True => Some("true"@),
        TokenType::Var => Some("var"@),
        TokenType::While => Some("while"@),
        TokenType::Eof => Some("eof"@),
        _ => None,
    }
}

/// A well-formed numeral text: a non-empty digit run, optionally followed
/// by a dot and a second non-empty digit run; `d1` is the first run's
/// length.
pub open spec fn num_wf_at(t: Seq<char>, d1: int) -> bool {
    &&& 1 <= d1 <= t.len()
    &&& forall|i: int| 0 <= i < d1 ==> is_digit(t[i])
    &&& (d1 < t.len() ==> t[d1] == '.' && d1 + 1 < t.len() && forall|i: int|
        d1 + 1 <= i < t.len() ==> is_digit(t[i]))
}

/// A well-formed numeral text.
pub open spec fn num_wf(t: Seq<char>) -> bool {
    exists|d1: int| num_wf_at(t, d1)
}

/// A well-formed identifier text: an alphabetic run that is not a
/// reserved word.
pub open spec fn ident_wf(t: Seq<char>) -> bool {
    &&& t.len() >= 1
    &&& is_alpha(t[0])
    &&& forall|i: int| 0 <= i < t.len() ==> is_alnum(t[i])
    &&& keyword_kind(t) is None
}

/// A token whose lexeme is a faithful text of its kind — what the scanner
/// itself always produces.
pub open spec fn wf_token(tm: TokenModel) -> bool {
    match punct_lexeme(tm.token_type) {
        Some(t) => tm.lexeme == t,
        None => match keyword_text(tm.token_type) {
            Some(t) => tm.lexeme == t,
            None => if tm.token_type == TokenType::Number {
                num_wf(tm.lexeme)
            } else if tm.token_type == TokenType::Identifier {
                ident_wf(tm.lexeme)
            } else {
                true
            },
        },
    }
}

/// The kind sequence of a token sequence.
pub open spec fn kinds(ts: Seq<TokenModel>) -> Seq<TokenType> {
    ts.map_values(|t: TokenModel| t.token_type)
}

/// The rendering of a token sequence from position `i` on: each lexeme
/// followed by a single space.
pub open spec fn render_toks(ts: Seq<TokenModel>, i: int) -> Seq<char>
    decreases ts.len() - i,
{
    if 0 <= i < ts.len() {
        ts[i].lexeme + " "@ + render_toks(ts, i + 1)
    } else {
        Seq::empty()
    }
}

/// Makes every punctuation, operator, keyword and whitespace literal's
/// characters available to a proof.
proof fn reveal_lexeme_literals()
    ensures
        "("@ =~= seq!['('],
        ")"@ =~= seq![')'],
        "{"@ =~= seq!['{'],
        "}"@ =~= seq!['}'],
        ","@ =~= seq![','],
        "."@ =~= seq!['.'],
        ";"@ =~= seq![';'],
        "-"@ =~= seq!['-'],
        "+"@ =~= seq!['+'],
        "/"@ =~= seq!['/'],
        "*"@ =~= seq!['*'],
        "!"@ =~= seq!['!'],
        "!="@ =~= seq!['!', '='],
        "="@ =~= seq!['='],
        "=="@ =~= seq!['=', '='],
        ">"@ =~= seq!['>'],
        ">="@ =~= seq!['>', '='],
        "<"@ =~= seq!['<'],
        "<="@ =~= seq!['<', '='],
        "?"@ =~= seq!['?'],
        ":"@ =~= seq![':'],
        "and"@ =~= seq!['a', 'n', 'd'],
        "class"@ =~= seq!['c', 'l', 'a', 's', 's'],
        "else"@ =~= seq!['e', 'l', 's', 'e'],
        "false"@ =~= seq!['f', 'a', 'l', 's', 'e'],
        "fun"@ =~= seq!['f', 'u', 'n'],
        "for"@ =~= seq!['f', 'o', 'r'],
        "if"@ =~= seq!['i', 'f'],
        "nil"@ =~= seq!['n', 'i', 'l'],
        "or"@ =~= seq!['o', 'r'],
        "print"@ =~= seq!['p', 'r', 'i', 'n', 't'],
        "return"@ =~= seq!['r', 'e', 't', 'u', 'r', 'n'],
        "super"@ =~= seq!['s', 'u', 'p', 'e', 'r'],
        "this"@ =~= seq!['t', 'h', 'i', 's'],
        "true"@ =~= seq!['t', 'r', 'u', 'e'],
        "var"@ =~= seq!['v', 'a', 'r'],
        "while"@ =~= seq!['w', 'h', 'i', 'l', 'e'],
        "eof"@ =~= seq!['e', 'o', 'f'],
{
    reveal_strlit("(");
    reveal_strlit(")");
    reveal_strlit("{");
    reveal_strlit("}");
    reveal_strlit(",");
    reveal_strlit(".");
    reveal_strlit(";");
    reveal_strlit("-");
    reveal_strlit("+");
    reveal_strlit("/");
    reveal_strlit("*");
    reveal_strlit("!");
    reveal_strlit("!=");
    reveal_strlit("=");
    reveal_strlit("==");
    reveal_strlit(">");
    reveal_strlit(">=");
    reveal_strlit("<");
    reveal_strlit("<=");
    reveal_strlit("?");
    reveal_strlit(":");
    reveal_strlit("and");
    reveal_strlit("class");
    reveal_strlit("else");
    reveal_strlit("false");
    reveal_strlit("fun");
    reveal_strlit("for");
    reveal_strlit("if");
    reveal_strlit("nil");
    reveal_strlit("or");
    reveal_strlit("print");
    reveal_strlit("return");
    reveal_strlit("super");
    reveal_strlit("this");
    reveal_strlit("true");
    reveal_strlit("var");
    reveal_strlit("while");
    reveal_strlit("eof");
}

/// A reserved word's text looks itself up to its own kind.
proof fn lemma_keyword_text_kind(k: TokenType)
    requires
        keyword_text(k) is Some,
    ensures
        keyword_kind(keyword_text(k)->Some_0) == Some(k),
{
    reveal_lexeme_literals();
}

/// The characters of a subrange, one by one.
proof fn lemma_subrange_chars(s: Seq<char>, pos: int, t: Seq<char>)
    requires
        0 <= pos,
        pos + t.len() <= s.len(),
        s.subrange(pos, pos + t.len() as int) == t,
    ensures
        forall|i: int| 0 <= i < t.len() ==> #[trigger] t[i] == s[pos + i],
{
    assert forall|i: int| 0 <= i < t.len() implies #[trigger] t[i] == s[pos + i] by {
        assert(t[i] == s.subrange(pos, pos + t.len() as int)[i]);
    }
}

/// The boundary a lexeme needs on its right: the end of the source, or a
/// space.
pub open spec fn lexeme_boundary(s: Seq<char>, e: int) -> bool {
    e == s.len() || (0 <= e < s.len() && s[e] == ' ')
}

/// Scanning at a punctuation or operator text with a boundary after it
/// yields exactly that kind and consumes exactly the text.
proof fn lemma_step_punct(s: Seq<char>, pos: int, line: int, k: TokenType)
    requires
        punct_lexeme(k) is Some,
        0 <= pos,
        pos + punct_lexeme(k)->Some_0.len() <= s.len(),
        s.subrange(pos, pos + punct_lexeme(k)->Some_0.len() as int) == punct_lexeme(k)->Some_0,
        lexeme_boundary(s, pos + punct_lexeme(k)->Some_0.len() as int),
    ensures
        ({
            let st = lex_step(s, pos, line);
            &&& st.token matches Some(tm) && tm.token_type == k
            &&& st.error is None
            &&& st.next == pos + punct_lexeme(k)->Some_0.len()
            &&& st.line == line
        }),
{
    reveal_lexeme_literals();
    let t = punct_lexeme(k)->Some_0;
    assert(s[pos] == t[0]);
    if t.len() == 2 {
        assert(s[pos + 1] == t[1]);
    }
}

/// Scanning at a well-formed numeral with a boundary after it yields one
/// number token carrying exactly that text.
proof fn lemma_step_number(s: Seq<char>, pos: int, line: int, t: Seq<char>)
    requires
        num_wf(t),
        0 <= pos,
        pos + t.len() <= s.len(),
        s.subrange(pos, pos + t.len() as int) == t,
        lexeme_boundary(s, pos + t.len() as int),
    ensures
        ({
            let st = lex_step(s, pos, line);
            &&& st.token matches Some(tm) && tm.token_type == TokenType::Number && tm.lexeme == t
                && tm.literal == Some(LiteralModel::Number(t))
            &&& st.error is None
            &&& st.next == pos + t.len()
            &&& st.line == line
        }),
{
    let d1 = choose|d1: int| num_wf_at(t, d1);
    assert(num_wf_at(t, d1));
    let len = t.len() as int;
    lemma_subrange_chars(s, pos, t);
    assert(is_digit(s[pos])) by {
        assert(t[0] == s[pos]);
    }
    // The first digit run stops at the dot or at the boundary.
    assert forall|i: int| pos <= i < pos + d1 implies is_digit(s[i]) by {
        assert(t[i - pos] == s[i]);
    }
    lemma_run_end_fix(s, pos, pos + d1, |c: char| is_digit(c));
    assert(digits_end(s, pos) == pos + d1);
    if d1 < len {
        // A dot with a digit after it: the fractional run stops at the
        // boundary.
        assert(s[pos + d1] == '.') by {
            assert(t[d1] == s[pos + d1]);
        }
        assert(is_digit(s[pos + d1 + 1])) by {
            assert(t[d1 + 1] == s[pos + d1 + 1]);
        }
        assert forall|i: int| pos + d1 + 1 <= i < pos + len implies is_digit(s[i]) by {
            assert(t[i - pos] == s[i]);
        }
        lemma_run_end_fix(s, pos + d1 + 1, pos + len, |c: char| is_digit(c));
        assert(digits_end(s, pos + d1 + 1) == pos + len);
    }
    assert(s.subrange(pos, pos + len) =~= t);
}

/// Scanning at an alphabetic run with a boundary after it consumes exactly
/// the run and yields its keyword kind, or an identifier carrying its
/// text.
proof fn lemma_step_ident(s: Seq<char>, pos: int, line: int, t: Seq<char>)
    requires
        t.len() >= 1,
        is_alpha(t[0]),
        forall|i: int| 0 <= i < t.len() ==> is_alnum(t[i]),
        0 <= pos,
        pos + t.len() <= s.len(),
        s.subrange(pos, pos + t.len() as int) == t,
        lexeme_boundary(s, pos + t.len() as int),
    ensures
        ({
            let st = lex_step(s, pos, line);
            &&& st.token matches Some(tm) && tm.lexeme == t && tm.token_type == (
            match keyword_kind(t) {
                Some(k) => k,
                None => TokenType::Identifier,
            }) && (keyword_kind(t) is None ==> tm.literal == Some(LiteralModel::Identifier(t)))
            &&& st.error is None
            &&& st.next == pos + t.len()
            &&& st.line == line
        }),
{
    let len = t.len() as int;
    lemma_subrange_chars(s, pos, t);
    assert(is_alpha(s[pos])) by {
        assert(t[0] == s[pos]);
    }
    assert forall|i: int| pos <= i < pos + len implies is_alnum(s[i]) by {
        assert(t[i - pos] == s[i]);
    }
    lemma_run_end_fix(s, pos, pos + len, |c: char| is_alnum(c));
    assert(alnum_end(s, pos) == pos + len);
    assert(s.subrange(pos, pos + len) =~= t);
}

/// A well-formed non-string lexeme is never empty.
proof fn lemma_wf_lexeme_nonempty(tm: TokenModel)
    requires
        wf_token(tm),
        tm.token_type != TokenType::String,
    ensures
        tm.lexeme.len() >= 1,
{
    reveal_lexeme_literals();
}

/// Scanning at the lexeme of any well-formed non-string token, with a
/// boundary after it, yields exactly one token of the same kind, no
/// diagnostic, and consumes exactly the lexeme without touching the line
/// counter.
proof fn lemma_step_token(s: Seq<char>, pos: int, line: int, tm: TokenModel)
    requires
        wf_token(tm),
        tm.token_type != TokenType::String,
        0 <= pos,
        pos + tm.lexeme.len() <= s.len(),
        s.subrange(pos, pos + tm.lexeme.len() as int) == tm.lexeme,
        lexeme_boundary(s, pos + tm.lexeme.len() as int),
    ensures
        ({
            let st = lex_step(s, pos, line);
            &&& st.token matches Some(o) && o.token_type == tm.token_type
            &&& st.error is None
            &&& st.next == pos + tm.lexeme.len()
            &&& st.line == line
        }),
{
    match punct_lexeme(tm.token_type) {
        Some(_) => {
            lemma_step_punct(s, pos, line, tm.token_type);
        },
        None => {
            match keyword_text(tm.token_type) {
                Some(t) => {
                    reveal_lexeme_literals();
                    lemma_step_ident(s, pos, line, t);
                    lemma_keyword_text_kind(tm.token_type);
                },
                None => {
                    if tm.token_type == TokenType::Number {
                        lemma_step_number(s, pos, line, tm.lexeme);
                    } else {
                        assert(tm.token_type == TokenType::Identifier);
                        lemma_step_ident(s, pos, line, tm.lexeme);
                    }
                },
            }
        },
    }
}

/// The kind sequence of the tokens from position `i` on.
pub open spec fn kinds_from(ts: Seq<TokenModel>, i: int) -> Seq<TokenType>
    decreases ts.len() - i,
{
    if 0 <= i < ts.len() {
        seq![ts[i].token_type] + kinds_from(ts, i + 1)
    } else {
        Seq::empty()
    }
}

proof fn lemma_kinds_from(ts: Seq<TokenModel>, i: int)
    requires
        0 <= i <= ts.len(),
    ensures
        kinds_from(ts, i).len() == ts.len() - i,
        forall|j: int| 0 <= j < ts.len() - i ==> kinds_from(ts, i)[j] == ts[i + j].token_type,
    decreases ts.len() - i,
{
    if i < ts.len() {
        lemma_kinds_from(ts, i + 1);
        assert forall|j: int| 0 <= j < ts.len() - i implies kinds_from(ts, i)[j] == ts[i
            + j].token_type by {
            if j > 0 {
                assert(kinds_from(ts, i)[j] == kinds_from(ts, i + 1)[j - 1]);
            }
        }
    }
}

/// Scanning the rendering of the tokens from `i` on, starting where that
/// rendering starts, reproduces their kinds with no diagnostics.
proof fn lemma_rescan(toks: Seq<TokenModel>, i: int, s: Seq<char>, pos: int, line: int)
    requires
        0 <= i <= toks.len(),
        0 <= pos <= s.len(),
        forall|k: int|
            0 <= k < toks.len() ==> wf_token(#[trigger] toks[k]) && toks[k].token_type
                != TokenType::String,
        s.subrange(pos, s.len() as int) == render_toks(toks, i),
    ensures
        lex_from(s, pos, line).errors == Seq::<crate::error_fmt::ErrorModel>::empty(),
        kinds(lex_from(s, pos, line).tokens) == kinds_from(toks, i),
    decreases toks.len() - i,
{
    if i == toks.len() {
        assert(render_toks(toks, i).len() == 0);
        assert(pos == s.len());
        assert(kinds(lex_from(s, pos, line).tokens) =~= kinds_from(toks, i));
    } else {
        let tm = toks[i];
        lemma_wf_lexeme_nonempty(tm);
        let el = tm.lexeme.len() as int;
        let rhs = tm.lexeme + " "@ + render_toks(toks, i + 1);
        reveal_strlit(" ");
        assert(s.len() - pos == rhs.len());
        assert(pos + el < s.len());
        assert forall|j: int| 0 <= j < rhs.len() implies s[pos + j] == rhs[j] by {
            assert(s.subrange(pos, s.len() as int)[j] == s[pos + j]);
        }
        assert(s.subrange(pos, pos + el) =~= tm.lexeme) by {
            assert forall|j: int| 0 <= j < el implies s.subrange(pos, pos + el)[j]
                == tm.lexeme[j] by {
                assert(s[pos + j] == rhs[j]);
            }
        }
        assert(s[pos + el] == ' ') by {
            assert(s[pos + el] == rhs[el]);
        }
        lemma_step_token(s, pos, line, tm);
        let st = lex_step(s, pos, line);
        // The space after the lexeme is its own silent step.
        let st2 = lex_step(s, pos + el, line);
        assert(st2.next == pos + el + 1 && st2.line == line && st2.token is None && st2.error
            is None);
        assert(s.subrange(pos + el + 1, s.len() as int) =~= render_toks(toks, i + 1)) by {
            assert forall|j: int| 0 <= j < s.len() - pos - el - 1 implies #[trigger] s.subrange(
                pos + el + 1,
                s.len() as int,
            )[j] == render_toks(toks, i + 1)[j] by {
                assert(s[pos + el + 1 + j] == rhs[el + 1 + j]);
                assert(rhs[el + 1 + j] == render_toks(toks, i + 1)[j]);
            }
        }
        lemma_rescan(toks, i + 1, s, pos + el + 1, line);
        let rest = lex_from(s, pos + el + 1, line);
        assert(lex_from(s, pos + el, line).tokens =~= rest.tokens);
        assert(lex_from(s, pos + el, line).errors =~= rest.errors);
        let o = st.token->Some_0;
        assert(lex_from(s, pos, line).tokens =~= seq![o] + rest.tokens);
        assert(lex_from(s, pos, line).errors =~= rest.errors);
        assert(kinds(lex_from(s, pos, line).tokens) =~= kinds_from(toks, i)) by {
            assert(kinds(rest.tokens) == kinds_from(toks, i + 1));
            assert forall|j: int| 0 <= j < 1 + rest.tokens.len() implies kinds(
                seq![o] + rest.tokens,
            )[j] == kinds_from(toks, i)[j] by {
                lemma_kinds_from(toks, i);
                if j > 0 {
                    assert(kinds(seq![o] + rest.tokens)[j] == (seq![o] + rest.tokens)[
                        j].token_type);
                    assert((seq![o] + rest.tokens)[j] == rest.tokens[j - 1]);
                    assert(kinds(rest.tokens)[j - 1] == rest.tokens[j - 1].token_type);
                }
            }
        }
    }
}

/// Round-trip idempotence: scanning the lexeme-for-lexeme rendering of any
/// well-formed token sequence without string tokens reproduces exactly the
/// same token-kind sequence, with no diagnostics.  (A string token's
/// lexeme carries its contents without the quotes, so re-scanning it need
/// not yield a string again; such tokens are excluded.)
pub proof fn lemma_scan_round_trip(toks: Seq<TokenModel>)
    requires
        forall|k: int|
            0 <= k < toks.len() ==> wf_token(#[trigger] toks[k]) && toks[k].token_type
                != TokenType::String,
    ensures
        ({
            let out = lex_from(render_toks(toks, 0), 0, 1);
            &&& out.errors.len() == 0
            &&& kinds(out.tokens) == kinds(toks)
        }),
{
    let s = render_toks(toks, 0);
    assert(s.subrange(0, s.len() as int) =~= s);
    lemma_rescan(toks, 0, s, 0, 1);
    lemma_kinds_from(toks, 0);
    assert(kinds(toks) =~= kinds_from(toks, 0));
}

/// Every punctuation or operator text scans to exactly one token of its
/// kind and no diagnostics.
pub proof fn lemma_punct_scan(k: TokenType)
    requires
        punct_lexeme(k) is Some,
    ensures
        ({
            let out = lex_from(punct_lexeme(k)->Some_0, 0, 1);
            &&& out.errors.len() == 0
            &&& out.tokens.len() == 1
            &&& out.tokens[0].token_type == k
        }),
{
    reveal_lexeme_literals();
    let s = punct_lexeme(k)->Some_0;
    assert(s.subrange(0, s.len() as int) =~= s);
    lemma_step_punct(s, 0, 1, k);
    let st = lex_step(s, 0, 1);
    let o = st.token->Some_0;
    assert(lex_from(s, 0, 1).tokens =~= seq![o] + lex_from(s, st.next, st.line).tokens);
    assert(lex_from(s, 0, 1).errors =~= lex_from(s, st.next, st.line).errors);
}

/// Every reserved keyword text scans to its keyword kind, and every other
/// alphabetic run to one identifier token carrying exactly that text —
/// case-sensitively, since the lookup compares the characters themselves.
pub proof fn lemma_alpha_scan(t: Seq<char>)
    requires
        t.len() >= 1,
        is_alpha(t[0]),
        forall|i: int| 0 <= i < t.len() ==> is_alnum(#[trigger] t[i]),
    ensures
        ({
            let out = lex_from(t, 0, 1);
            &&& out.errors.len() == 0
            &&& out.tokens.len() == 1
            &&& out.tokens[0].lexeme == t
            &&& out.tokens[0].token_type == (match keyword_kind(t) {
                Some(k) => k,
                None => TokenType::Identifier,
            })
            &&& (keyword_kind(t) is None ==> out.tokens[0].literal == Some(
                LiteralModel::Identifier(t),
            ))
        }),
{
    assert(t.subrange(0, t.len() as int) =~= t);
    lemma_step_ident(t, 0, 1, t);
    let st = lex_step(t, 0, 1);
    let o = st.token->Some_0;
    assert(lex_from(t, 0, 1).tokens =~= seq![o] + lex_from(t, st.next, st.line).tokens);
    assert(lex_from(t, 0, 1).errors =~= lex_from(t, st.next, st.line).errors);
}

/// Every well-formed numeral text — a digit run, optionally a dot with a
/// second digit run — scans to exactly one number token carrying that
/// text.  A dot not followed by a digit is outside every such text, which
/// is what makes it scan as its own token.
pub proof fn lemma_number_scan(t: Seq<char>)
    requires
        num_wf(t),
    ensures
        ({
            let out = lex_from(t, 0, 1);
            &&& out.errors.len() == 0
            &&& out.tokens.len() == 1
            &&& out.tokens[0].token_type == TokenType::Number
            &&& out.tokens[0].lexeme == t
            &&& out.tokens[0].literal == Some(LiteralModel::Number(t))
        }),
{
    assert(t.subrange(0, t.len() as int) =~= t);
    lemma_step_number(t, 0, 1, t);
    let st = lex_step(t, 0, 1);
    let o = st.token->Some_0;
    assert(lex_from(t, 0, 1).tokens =~= seq![o] + lex_from(t, st.next, st.line).tokens);
    assert(lex_from(t, 0, 1).errors =~= lex_from(t, st.next, st.line).errors);
}

/// Newline counts carry over between a text and its copy at an offset.
proof fn lemma_newlines_shift(s: Seq<char>, t: Seq<char>, k: int, a: int, b: int)
    requires
        0 <= a <= b <= t.len(),
        0 <= a + k,
        b + k <= s.len(),
        forall|i: int| a <= i < b ==> t[i] == s[i + k],
    ensures
        newlines(s, a + k, b + k) == newlines(t, a, b),
    decreases b - a,
{
    if a < b {
        lemma_newlines_shift(s, t, k, a + 1, b);
        assert(t[a] == s[a + k]);
    }
}

/// A quoted text without an embedded quote scans to exactly one string
/// token that preserves the text — embedded newlines included — and
/// advances the line counter by the newlines the text embeds.
pub proof fn lemma_string_scan(content: Seq<char>)
    requires
        forall|i: int| 0 <= i < content.len() ==> #[trigger] content[i] != '"',
    ensures
        ({
            let s = seq!['"'] + content + seq!['"'];
            let out = lex_from(s, 0, 1);
            &&& out.errors.len() == 0
            &&& out.tokens.len() == 1
            &&& out.tokens[0].token_type == TokenType::String
            &&& out.tokens[0].literal == Some(LiteralModel::Str(content))
            &&& out.tokens[0].line == 1 + newlines(content, 0, content.len() as int)
        }),
{
    let s = seq!['"'] + content + seq!['"'];
    let el = content.len() as int;
    assert(s.len() == el + 2);
    assert(s[0] == '"');
    assert forall|i: int| 1 <= i < 1 + el implies s[i] == content[i - 1] && s[i] != '"' by {
        assert((seq!['"'] + content)[i] == content[i - 1]);
        assert(s[i] == (seq!['"'] + content)[i]);
    }
    assert(s[el + 1] == '"');
    lemma_run_end_fix(s, 1, el + 1, |c: char| c != '"');
    assert(quote_end(s, 1) == el + 1);
    assert(s.subrange(1, el + 1) =~= content);
    lemma_newlines_shift(s, content, 1, 0, el);
    let st = lex_step(s, 0, 1);
    assert(st.next == el + 2 && st.error is None);
    let o = st.token->Some_0;
    assert(lex_from(s, 0, 1).tokens =~= seq![o] + lex_from(s, st.next, st.line).tokens);
    assert(lex_from(s, 0, 1).errors =~= lex_from(s, st.next, st.line).errors);
}

/// Any token one lexeme yields is well-formed: its lexeme is a faithful
/// text of its kind.
proof fn lemma_step_wf(s: Seq<char>, pos: int, line: int)
    requires
        0 <= pos < s.len(),
    ensures
        lex_step(s, pos, line).token matches Some(tm) ==> wf_token(tm),
{
    reveal_lexeme_literals();
    let c = s[pos];
    assert(s.subrange(pos, pos + 1) =~= seq![c]);
    if pos + 1 < s.len() {
        assert(s.subrange(pos, pos + 2) =~= seq![c, s[pos + 1]]);
    }
    if is_digit(c) {
        lemma_run_end(s, pos, |ch: char| is_digit(ch));
        let e1 = digits_end(s, pos);
        assert(pos < e1) by {
            assert(run_end(s, pos, |ch: char| is_digit(ch)) != pos);
        }
        if e1 < s.len() && s[e1] == '.' && e1 + 1 < s.len() && is_digit(s[e1 + 1]) {
            lemma_run_end(s, e1 + 1, |ch: char| is_digit(ch));
            let e = digits_end(s, e1 + 1);
            assert(e1 + 1 < e) by {
                assert(run_end(s, e1 + 1, |ch: char| is_digit(ch)) != e1 + 1);
            }
            let t = s.subrange(pos, e);
            assert(num_wf_at(t, e1 - pos)) by {
                assert forall|i: int| 0 <= i < t.len() implies #[trigger] t[i] == s[pos + i] by {
                }
            }
        } else {
            let t = s.subrange(pos, e1);
            assert(num_wf_at(t, e1 - pos)) by {
                assert forall|i: int| 0 <= i < t.len() implies #[trigger] t[i] == s[pos + i] by {
                }
            }
        }
    } else if is_alpha(c) {
        lemma_run_end(s, pos, |ch: char| is_alnum(ch));
        let e = alnum_end(s, pos);
        assert(pos < e) by {
            assert(run_end(s, pos, |ch: char| is_alnum(ch)) != pos);
        }
        let t = s.subrange(pos, e);
        assert forall|i: int| 0 <= i < t.len() implies #[trigger] t[i] == s[pos + i] by {
        }
        match keyword_kind(t) {
            Some(k) => {
                assert(keyword_text(k) == Some(t));
            },
            None => {
                assert(ident_wf(t));
            },
        }
    }
}

/// Every token a scan yields is well-formed — so the round-trip law
/// applies to any scanner output that holds no string token.
pub proof fn lemma_lex_from_wf(s: Seq<char>, pos: int, line: int)
    ensures
        forall|j: int|
            0 <= j < lex_from(s, pos, line).tokens.len() ==> wf_token(
                #[trigger] lex_from(s, pos, line).tokens[j],
            ),
    decreases s.len() - pos,
{
    if 0 <= pos < s.len() {
        lemma_lex_step_progress(s, pos, line);
        lemma_step_wf(s, pos, line);
        let st = lex_step(s, pos, line);
        lemma_lex_from_wf(s, st.next, st.line);
        let rest = lex_from(s, st.next, st.line);
        assert forall|j: int| 0 <= j < lex_from(s, pos, line).tokens.len() implies wf_token(
            #[trigger] lex_from(s, pos, line).tokens[j],
        ) by {
            match st.token {
                Some(tm) => {
                    if j > 0 {
                        assert(lex_from(s, pos, line).tokens[j] == rest.tokens[j - 1]);
                    }
                },
                None => {
                    assert(lex_from(s, pos, line).tokens[j] == rest.tokens[j]);
                },
            }
        }
    }
}

/// A lexeme's token sits where the lexeme ends, on the lexeme's final
/// line.
proof fn lemma_step_position(s: Seq<char>, pos: int, line: int)
    requires
        0 <= pos < s.len(),
    ensures
        lex_step(s, pos, line).token matches Some(tm) ==> tm.col == lex_step(s, pos, line).next
            && tm.line == lex_step(s, pos, line).line,
{
}

/// Positions across a token sequence: each token ends after `pos` and
/// within the source, on or after line `line`, and both the end positions
/// and the lines never decrease from one token to the next.
pub open spec fn positions_ok(toks: Seq<TokenModel>, pos: int, line: int, len: int) -> bool {
    &&& forall|j: int|
        0 <= j < toks.len() ==> pos < (#[trigger] toks[j]).col <= len && line <= toks[j].line
    &&& forall|j1: int, j2: int|
        #![trigger toks[j1], toks[j2]]
        0 <= j1 <= j2 < toks.len() ==> toks[j1].col <= toks[j2].col && toks[j1].line <= toks[
            j2
        ].line
}

/// Positions compose: a possible first token ending exactly where the
/// rest begins extends the rest's ordering to the whole.
proof fn lemma_positions_compose(
    first: Option<TokenModel>,
    rest: Seq<TokenModel>,
    pos: int,
    line: int,
    next: int,
    line2: int,
    len: int,
)
    requires
        positions_ok(rest, next, line2, len),
        pos < next <= len,
        line <= line2,
        first matches Some(tm) ==> tm.col == next && tm.line == line2,
    ensures
        positions_ok(opt_seq(first) + rest, pos, line, len),
{
    let all = opt_seq(first) + rest;
    assert forall|j: int| 0 <= j < all.len() implies pos < (#[trigger] all[j]).col <= len && line
        <= all[j].line by {
        match first {
            Some(tm) => {
                if j > 0 {
                    assert(all[j] == rest[j - 1]);
                }
            },
            None => {
                assert(all[j] == rest[j]);
            },
        }
    }
    assert forall|j1: int, j2: int|
        #![trigger all[j1], all[j2]]
        0 <= j1 <= j2 < all.len() implies all[j1].col <= all[j2].col && all[j1].line <= all[
        j2
    ].line by {
        match first {
            Some(tm) => {
                if j1 > 0 {
                    assert(all[j1] == rest[j1 - 1]);
                }
                if j2 > 0 {
                    assert(all[j2] == rest[j2 - 1]);
                }
            },
            None => {
                assert(all[j1] == rest[j1]);
                assert(all[j2] == rest[j2]);
            },
        }
    }
}

/// Token positions are monotonically non-decreasing across the stream:
/// what any scan yields satisfies `positions_ok`.
pub proof fn lemma_lex_from_positions(s: Seq<char>, pos: int, line: int)
    requires
        0 <= pos,
    ensures
        positions_ok(lex_from(s, pos, line).tokens, pos, line, s.len() as int),
    decreases s.len() - pos,
{
    if 0 <= pos < s.len() {
        lemma_lex_step_progress(s, pos, line);
        lemma_step_position(s, pos, line);
        let st = lex_step(s, pos, line);
        lemma_lex_from_positions(s, st.next, st.line);
        lemma_positions_compose(
            st.token,
            lex_from(s, st.next, st.line).tokens,
            pos,
            line,
            st.next,
            st.line,
            s.len() as int,
        );
    }
}

/// Round-trip idempotence, end to end: scan any source, render the tokens
/// lexeme for lexeme, and scan the rendering — the token-kind sequence
/// comes back exactly, with no diagnostics, provided no string literal was
/// among the tokens (a string's lexeme drops its quotes).
pub proof fn lemma_scan_render_rescan(src: Seq<char>)
    requires
        forall|j: int|
            0 <= j < lex_from(src, 0, 1).tokens.len() ==> (#[trigger] lex_from(
                src,
                0,
                1,
            ).tokens[j]).token_type != TokenType::String,
    ensures
        ({
            let toks = lex_from(src, 0, 1).tokens;
            let out = lex_from(render_toks(toks, 0), 0, 1);
            &&& out.errors.len() == 0
            &&& kinds(out.tokens) == kinds(toks)
        }),
{
    lemma_lex_from_wf(src, 0, 1);
    lemma_scan_round_trip(lex_from(src, 0, 1).tokens);
}

/// Renders a token sequence lexeme for lexeme, each lexeme followed by a
/// single separating space.
pub fn render_tokens(tokens: &Vec<Token>) -> (r: String)
    ensures
        r@ == render_toks(token_views(tokens@), 0),
{
    let ghost ts = token_views(tokens@);
    let mut out = String::new();
    let mut i: usize = 0;
    proof {
        reveal_strlit(" ");
        assert(out@ + render_toks(ts, 0) =~= render_toks(ts, 0));
    }
    while i < tokens.len()
        invariant
            i <= tokens.len(),
            ts == token_views(tokens@),
            ts.len() == tokens@.len(),
            " "@ == seq![' '],
            out@ + render_toks(ts, i as int) == render_toks(ts, 0),
        decreases tokens.len() - i,
    {
        let ghost out0 = out@;
        out.append(tokens[i].lexeme.as_str());
        out.append(" ");
        proof {
            assert(ts[i as int] == tokens@[i as int]@);
            assert(out@ + render_toks(ts, i as int + 1) =~= out0 + render_toks(ts, i as int));
        }
        i = i + 1;
    }
    proof {
        assert(out@ + render_toks(ts, tokens@.len() as int) =~= out@);
    }
    out
}

} // verus!
