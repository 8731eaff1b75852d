//! The operator-precedence grammar, stated mathematically.
//!
//! One spec function per precedence tier says exactly which expression tree
//! a token sequence parses to from a given position, and where parsing
//! stops; the four left-associative binary tiers share one pair of
//! functions indexed by level.  `sp_parse` folds the grammar over a whole
//! token sequence with the parser's recovery policy: on a failure the
//! diagnostic is recorded, parsing resumes at the next token that can start
//! a primary, and a parse that failed anywhere is rejected with all its
//! diagnostics in discovery order.

use vstd::prelude::*;

use crate::error_fmt::ErrorModel;
use crate::expression::ExprModel;
use crate::token::{LiteralModel, TokenModel, TokenType};

verus! {

/// What parsing one tier from one position yields: the tree and the
/// position after it, or a diagnostic and the position it arose at.
pub enum PStep {
    Done { expr: ExprModel, next: int },
    Fail { error: ErrorModel, at: int },
}

/// What parsing a whole token sequence yields: a tree, or every diagnostic
/// in discovery order.
pub enum Parsed {
    Accepted(ExprModel),
    Rejected(Seq<ErrorModel>),
}

/// An equality operator.
pub open spec fn is_eq_op(k: TokenType) -> bool {
    k == TokenType::BangEqual || k == TokenType::EqualEqual
}

/// A comparison operator.
pub open spec fn is_cmp_op(k: TokenType) -> bool {
    k == TokenType::Greater || k == TokenType::GreaterEqual || k == TokenType::Less || k
        == TokenType::LessEqual
}

/// An additive operator.
pub open spec fn is_term_op(k: TokenType) -> bool {
    k == TokenType::Plus || k == TokenType::Minus
}

/// A multiplicative operator.
pub open spec fn is_factor_op(k: TokenType) -> bool {
    k == TokenType::Slash || k == TokenType::Star
}

/// The operator set of binary tier `level`: 0 is equality, 1 comparison,
/// 2 term, 3 factor.
pub open spec fn level_op(level: int, k: TokenType) -> bool {
    if level == 0 {
        is_eq_op(k)
    } else if level == 1 {
        is_cmp_op(k)
    } else if level == 2 {
        is_term_op(k)
    } else {
        is_factor_op(k)
    }
}

/// A token kind that can start a `primary`; also the synchronization set
/// for error recovery.
pub open spec fn can_start_primary(k: TokenType) -> bool {
    k == TokenType::True || k == TokenType::False || k == TokenType::Nil || k == TokenType::String
        || k == TokenType::Number || k == TokenType::LeftParen
}

/// Message of the diagnostic for a ternary without its `:` branch.
pub open spec fn msg_no_alternate() -> Seq<char> {
    "No alternate condition provided"@
}

/// Message of the diagnostic for a token no expression can start with,
/// also used for a missing closing parenthesis.
pub open spec fn msg_invalid_primary() -> Seq<char> {
    "Invalid token to start an expression."@
}

/// The line a diagnostic at token position `at` carries: the token's own
/// line, or the last token's at the end of the stream, or 1.
pub open spec fn err_line(toks: Seq<TokenModel>, at: int) -> int {
    if 0 <= at < toks.len() {
        toks[at].line
    } else if toks.len() > 0 {
        toks[toks.len() - 1].line
    } else {
        1
    }
}

/// The column a diagnostic at token position `at` carries.
pub open spec fn err_col(toks: Seq<TokenModel>, at: int) -> int {
    if 0 <= at < toks.len() {
        toks[at].col
    } else if toks.len() > 0 {
        toks[toks.len() - 1].col
    } else {
        0
    }
}

/// The syntax diagnostic raised at token position `at`.
pub open spec fn err_at(toks: Seq<TokenModel>, at: int, msg: Seq<char>) -> ErrorModel {
    ErrorModel {
        message: "Syntax Error: "@ + msg,
        text: Seq::empty(),
        line: err_line(toks, at),
        col: err_col(toks, at),
    }
}

/// The literal payload of a `primary` at token `t`, for the kinds that
/// carry one; the boolean keywords carry their own text.
pub open spec fn primary_lit(t: TokenModel) -> ExprModel {
    if t.token_type == TokenType::True {
        ExprModel::Lit { value: Some(LiteralModel::Identifier("true"@)) }
    } else if t.token_type == TokenType::False {
        ExprModel::Lit { value: Some(LiteralModel::Identifier("false"@)) }
    } else if t.token_type == TokenType::Nil {
        ExprModel::Lit { value: None }
    } else {
        ExprModel::Lit { value: t.literal }
    }
}

/// expression -> ternary
pub open spec fn sp_expression(toks: Seq<TokenModel>, i: int) -> PStep
    decreases toks.len() - i, 9int,
{
    sp_ternary(toks, i)
}

/// ternary -> equality ( "?" expression ":" expression )?
///
/// The alternative recurses into `expression`, so chained ternaries nest to
/// the right; a missing `:` is a failure.
pub open spec fn sp_ternary(toks: Seq<TokenModel>, i: int) -> PStep
    decreases toks.len() - i, 8int,
{
    match sp_binary(toks, i, 0) {
        PStep::Done { expr, next } => {
            if i <= next < toks.len() && toks[next].token_type == TokenType::Question {
                match sp_expression(toks, next + 1) {
                    PStep::Done { expr: cons, next: next2 } => {
                        if next + 1 <= next2 < toks.len() && toks[next2].token_type
                            == TokenType::Colon {
                            match sp_expression(toks, next2 + 1) {
                                PStep::Done { expr: alt, next: next3 } => PStep::Done {
                                    expr: ExprModel::Cond {
                                        cond: Box::new(expr),
                                        cons: Box::new(cons),
                                        alt: Box::new(alt),
                                    },
                                    next: next3,
                                },
                                f => f,
                            }
                        } else {
                            PStep::Fail {
                                error: err_at(toks, next2, msg_no_alternate()),
                                at: next2,
                            }
                        }
                    },
                    f => f,
                }
            } else {
                PStep::Done { expr, next }
            }
        },
        f => f,
    }
}

/// One left-associative binary tier: its sub-tier, then a fold of
/// `operator sub-tier` pairs.
pub open spec fn sp_binary(toks: Seq<TokenModel>, i: int, level: int) -> PStep
    decreases toks.len() - i, 7int - (if level < 3 {
        level
    } else {
        3int
    }),
{
    let first = if level < 3 {
        sp_binary(toks, i, level + 1)
    } else {
        sp_unary(toks, i)
    };
    match first {
        PStep::Done { expr, next } => {
            if i < next <= toks.len() {
                sp_binary_rest(toks, next, level, expr)
            } else {
                first
            }
        },
        f => f,
    }
}

/// The fold of one binary tier: while the next token is one of the tier's
/// operators, parse a right operand one tier up and grow a left-deep tree.
pub open spec fn sp_binary_rest(toks: Seq<TokenModel>, j: int, level: int, acc: ExprModel) -> PStep
    decreases toks.len() - j, 3int,
{
    if 0 <= j < toks.len() && level_op(level, toks[j].token_type) {
        let op = toks[j];
        let sub = if level < 3 {
            sp_binary(toks, j + 1, level + 1)
        } else {
            sp_unary(toks, j + 1)
        };
        match sub {
            PStep::Done { expr, next } => {
                if j < next <= toks.len() {
                    sp_binary_rest(
                        toks,
                        next,
                        level,
                        ExprModel::Bin {
                            left: Box::new(acc),
                            operator: op,
                            right: Box::new(expr),
                        },
                    )
                } else {
                    sub
                }
            },
            f => f,
        }
    } else {
        PStep::Done { expr: acc, next: j }
    }
}

/// unary -> ("!" | "-") unary | primary
pub open spec fn sp_unary(toks: Seq<TokenModel>, i: int) -> PStep
    decreases toks.len() - i, 2int,
{
    if 0 <= i < toks.len() && (toks[i].token_type == TokenType::Bang || toks[i].token_type
        == TokenType::Minus) {
        match sp_unary(toks, i + 1) {
            PStep::Done { expr, next } => PStep::Done {
                expr: ExprModel::Un { operator: toks[i], right: Box::new(expr) },
                next,
            },
            f => f,
        }
    } else {
        sp_primary(toks, i)
    }
}

/// primary -> NUMBER | STRING | "true" | "false" | "nil"
///          | "(" expression ")"
pub open spec fn sp_primary(toks: Seq<TokenModel>, i: int) -> PStep
    decreases toks.len() - i, 1int,
{
    if 0 <= i < toks.len() {
        let t = toks[i];
        if t.token_type == TokenType::True || t.token_type == TokenType::False || t.token_type
            == TokenType::Nil || t.token_type == TokenType::String || t.token_type
            == TokenType::Number {
            PStep::Done { expr: primary_lit(t), next: i + 1 }
        } else if t.token_type == TokenType::LeftParen {
            match sp_expression(toks, i + 1) {
                PStep::Done { expr, next } => {
                    if next < toks.len() && toks[next].token_type == TokenType::RightParen {
                        PStep::Done {
                            expr: ExprModel::Grp { inner: Box::new(expr) },
                            next: next + 1,
                        }
                    } else {
                        PStep::Fail {
                            error: err_at(toks, next, msg_invalid_primary()),
                            at: next,
                        }
                    }
                },
                f => f,
            }
        } else {
            PStep::Fail { error: err_at(toks, i, msg_invalid_primary()), at: i }
        }
    } else {
        PStep::Fail { error: err_at(toks, i, msg_invalid_primary()), at: i }
    }
}

/// The first position at or after `a` whose token can start a `primary`,
/// or the end of the stream: where parsing resumes after a failure.
pub open spec fn sync_pos(toks: Seq<TokenModel>, a: int) -> int
    decreases toks.len() - a,
{
    if 0 <= a < toks.len() {
        if can_start_primary(toks[a].token_type) {
            a
        } else {
            sync_pos(toks, a + 1)
        }
    } else {
        toks.len() as int
    }
}

/// Parsing a whole stream from `i` with the diagnostics recorded so far:
/// a clean parse of an expression is accepted only when no earlier failure
/// was recorded; a failure is recorded and parsing resumes at the
/// synchronization point while one exists.
pub open spec fn sp_parse_from(toks: Seq<TokenModel>, i: int, errs: Seq<ErrorModel>) -> Parsed
    decreases toks.len() - i,
{
    match sp_expression(toks, i) {
        PStep::Done { expr, next } => {
            if errs.len() == 0 {
                Parsed::Accepted(expr)
            } else {
                Parsed::Rejected(errs)
            }
        },
        PStep::Fail { error, at } => {
            let j = sync_pos(toks, at);
            if i < j < toks.len() {
                sp_parse_from(toks, j, errs.push(error))
            } else {
                Parsed::Rejected(errs.push(error))
            }
        },
    }
}

/// What a whole token sequence parses to.
pub open spec fn sp_parse(toks: Seq<TokenModel>) -> Parsed {
    sp_parse_from(toks, 0, Seq::empty())
}

/// The bounds a tier's outcome respects: success consumes at least one
/// token and stays within the stream; a failure arises at or after the
/// start, and only at the very start when its token cannot start a
/// primary (or the stream is exhausted) — which is what makes
/// synchronization advance.
pub open spec fn step_ok(toks: Seq<TokenModel>, i: int, r: PStep) -> bool {
    match r {
        PStep::Done { expr, next } => i < next <= toks.len(),
        PStep::Fail { error, at } => i <= at <= toks.len() && (at == i ==> at == toks.len()
            || !can_start_primary(toks[at].token_type)),
    }
}

/// The bounds of a binary fold's outcome, which may consume nothing.
pub open spec fn rest_ok(toks: Seq<TokenModel>, j: int, r: PStep) -> bool {
    match r {
        PStep::Done { expr, next } => j <= next <= toks.len(),
        PStep::Fail { error, at } => j < at <= toks.len(),
    }
}

pub proof fn lemma_expression_ok(toks: Seq<TokenModel>, i: int)
    requires
        0 <= i <= toks.len(),
    ensures
        step_ok(toks, i, sp_expression(toks, i)),
    decreases toks.len() - i, 9int,
{
    lemma_ternary_ok(toks, i);
}

pub proof fn lemma_ternary_ok(toks: Seq<TokenModel>, i: int)
    requires
        0 <= i <= toks.len(),
    ensures
        step_ok(toks, i, sp_ternary(toks, i)),
    decreases toks.len() - i, 8int,
{
    lemma_binary_ok(toks, i, 0);
    match sp_binary(toks, i, 0) {
        PStep::Done { expr, next } => {
            if i <= next < toks.len() && toks[next].token_type == TokenType::Question {
                lemma_expression_ok(toks, next + 1);
                match sp_expression(toks, next + 1) {
                    PStep::Done { expr: cons, next: next2 } => {
                        if next + 1 <= next2 < toks.len() && toks[next2].token_type
                            == TokenType::Colon {
                            lemma_expression_ok(toks, next2 + 1);
                        }
                    },
                    _ => {},
                }
            }
        },
        _ => {},
    }
}

pub proof fn lemma_binary_ok(toks: Seq<TokenModel>, i: int, level: int)
    requires
        0 <= i <= toks.len(),
        0 <= level <= 3,
    ensures
        step_ok(toks, i, sp_binary(toks, i, level)),
    decreases toks.len() - i, 7int - level,
{
    if level < 3 {
        lemma_binary_ok(toks, i, level + 1);
    } else {
        lemma_unary_ok(toks, i);
    }
    let first = if level < 3 {
        sp_binary(toks, i, level + 1)
    } else {
        sp_unary(toks, i)
    };
    match first {
        PStep::Done { expr, next } => {
            lemma_rest_ok(toks, next, level, expr);
        },
        _ => {},
    }
}

pub proof fn lemma_rest_ok(toks: Seq<TokenModel>, j: int, level: int, acc: ExprModel)
    requires
        0 <= j <= toks.len(),
        0 <= level <= 3,
    ensures
        rest_ok(toks, j, sp_binary_rest(toks, j, level, acc)),
    decreases toks.len() - j, 3int,
{
    if j < toks.len() && level_op(level, toks[j].token_type) {
        let op = toks[j];
        if level < 3 {
            lemma_binary_ok(toks, j + 1, level + 1);
        } else {
            lemma_unary_ok(toks, j + 1);
        }
        let sub = if level < 3 {
            sp_binary(toks, j + 1, level + 1)
        } else {
            sp_unary(toks, j + 1)
        };
        match sub {
            PStep::Done { expr, next } => {
                lemma_rest_ok(
                    toks,
                    next,
                    level,
                    ExprModel::Bin { left: Box::new(acc), operator: op, right: Box::new(expr) },
                );
            },
            _ => {},
        }
    }
}

pub proof fn lemma_unary_ok(toks: Seq<TokenModel>, i: int)
    requires
        0 <= i <= toks.len(),
    ensures
        step_ok(toks, i, sp_unary(toks, i)),
    decreases toks.len() - i, 2int,
{
    if i < toks.len() && (toks[i].token_type == TokenType::Bang || toks[i].token_type
        == TokenType::Minus) {
        lemma_unary_ok(toks, i + 1);
    } else {
        lemma_primary_ok(toks, i);
    }
}

pub proof fn lemma_primary_ok(toks: Seq<TokenModel>, i: int)
    requires
        0 <= i <= toks.len(),
    ensures
        step_ok(toks, i, sp_primary(toks, i)),
    decreases toks.len() - i, 1int,
{
    if i < toks.len() && toks[i].token_type == TokenType::LeftParen {
        lemma_expression_ok(toks, i + 1);
    }
}

/// Where synchronization stops: at or after the failure, within the
/// stream, skipping exactly the tokens that cannot start a primary.
pub proof fn lemma_sync_pos(toks: Seq<TokenModel>, a: int)
    requires
        0 <= a <= toks.len(),
    ensures
        a <= sync_pos(toks, a) <= toks.len(),
        sync_pos(toks, a) < toks.len() ==> can_start_primary(
            toks[sync_pos(toks, a)].token_type,
        ),
        forall|q: int| a <= q < sync_pos(toks, a) ==> !can_start_primary(toks[q].token_type),
    decreases toks.len() - a,
{
    if a < toks.len() && !can_start_primary(toks[a].token_type) {
        lemma_sync_pos(toks, a + 1);
    }
}

/// A span of non-starters followed by a starter (or the end) pins the
/// synchronization point.
pub proof fn lemma_sync_pos_fix(toks: Seq<TokenModel>, a: int, e: int)
    requires
        0 <= a <= e <= toks.len(),
        forall|q: int| a <= q < e ==> !can_start_primary(toks[q].token_type),
        e == toks.len() || can_start_primary(toks[e].token_type),
    ensures
        sync_pos(toks, a) == e,
    decreases e - a,
{
    if a < e {
        assert(!can_start_primary(toks[a].token_type));
        lemma_sync_pos_fix(toks, a + 1, e);
    }
}

} // verus!
