//! The recursive-descent parser: one pass over a complete token sequence
//! that builds the expression tree the precedence grammar in `parse_spec`
//! prescribes.
//!
//! Control flow is the call stack of the grammar itself: each tier parses
//! the next-higher tier first, then folds its own operators.  A structural
//! violation is reported as a diagnostic; the parser then synchronizes —
//! skips forward to the next token that can start a primary — and keeps
//! parsing, so one call can surface several independent syntax errors.

use vstd::prelude::*;
use vstd::string::*;

use crate::error_fmt::{Error, ErrorModel};
use crate::expression::{Bin, Cond, Expr, Grp, Lit, Un};
use crate::marcher::Marcher;
use crate::parse_spec::{
    can_start_primary, err_at, lemma_binary_ok, lemma_expression_ok, lemma_sync_pos,
    lemma_sync_pos_fix, lemma_unary_ok, level_op, sp_binary, sp_binary_rest, sp_expression,
    sp_parse, sp_parse_from, sp_primary, sp_ternary, sp_unary, sync_pos, PStep, Parsed,
};
use crate::scanner::{error_views, token_views};
use crate::token::{Literal, Token, TokenModel, TokenType};

verus! {

proof fn lemma_error_views_push(es: Seq<Error>, e: Error)
    ensures
        error_views(es.push(e)) == error_views(es).push(e@),
{
    assert(error_views(es.push(e)) =~= error_views(es).push(e@));
}

/// The parser's state: a cursor over the token sequence, whose ownership
/// is transferred in.
pub struct Parser {
    pub tokens: Marcher<Token>,
}

impl Parser {
    /// The models of the tokens being parsed.
    pub open spec fn toks(&self) -> Seq<TokenModel> {
        token_views(self.tokens.values@)
    }

    /// The index of the next unconsumed token.
    pub open spec fn pos(&self) -> int {
        self.tokens.nxt()
    }

    /// The cursor is sound and never moves past the end of the stream.
    pub open spec fn wf(&self) -> bool {
        &&& self.tokens.wf()
        &&& 0 <= self.pos() <= self.tokens.values.len()
    }

    pub fn new(tokens: &Vec<Token>) -> (r: Self)
        ensures
            r.wf(),
            r.toks() == token_views(tokens@),
            r.pos() == 0,
    {
        let mut values: Vec<Token> = Vec::new();
        let mut idx: usize = 0;
        while idx < tokens.len()
            invariant
                idx <= tokens.len(),
                values@.len() == idx,
                forall|k: int| 0 <= k < idx ==> values@[k] == tokens@[k],
            decreases tokens.len() - idx,
        {
            values.push(tokens[idx].clone());
            idx = idx + 1;
        }
        proof {
            assert(values@ =~= tokens@);
        }
        Parser { tokens: Marcher::new(values) }
    }

    /// The syntax diagnostic for the token at the cursor: its position, or
    /// the last token's at the end of the stream.
    fn make_error(&self, message: &str) -> (r: Error)
        requires
            self.wf(),
        ensures
            r@ == err_at(self.toks(), self.pos(), message@),
    {
        let msg = String::from_str("Syntax Error: ").concat(message);
        let line: usize;
        let col: usize;
        match self.tokens.peek(1) {
            Some(t) => {
                line = t.line;
                col = t.col;
            },
            None => {
                if self.tokens.values.len() > 0 {
                    let last = &self.tokens.values[self.tokens.values.len() - 1];
                    line = last.line;
                    col = last.col;
                } else {
                    line = 1;
                    col = 0;
                }
            },
        }
        Error::new(msg, String::new(), line, col)
    }

    /// Skips forward to the next token that can start a primary, or to the
    /// end of the stream.
    fn synchronize(&mut self)
        requires
            old(self).wf(),
        ensures
            final(self).wf(),
            final(self).tokens.values == old(self).tokens.values,
            old(self).pos() <= final(self).pos(),
            final(self).pos() == sync_pos(old(self).toks(), old(self).pos()),
    {
        let pred = |t: &Token| -> (b: bool)
            ensures
                b == can_start_primary(t@.token_type),
            {
                t.token_type == TokenType::True || t.token_type == TokenType::False
                    || t.token_type == TokenType::Nil || t.token_type == TokenType::String
                    || t.token_type == TokenType::Number || t.token_type == TokenType::LeftParen
            };
        proof {
            assert(forall|t: &Token| #[trigger] call_requires(pred, (t,)));
        }
        let _ = self.tokens.advance_until(pred);
        proof {
            lemma_sync_pos_fix(old(self).toks(), old(self).pos(), self.pos());
        }
    }

    /// True once no token remains to consume.
    fn at_end(&self) -> (r: bool)
        requires
            self.wf(),
        ensures
            r == (self.pos() == self.tokens.values.len()),
    {
        self.tokens.completed()
    }

    /// expression -> ternary
    fn expression(&mut self) -> (r: Result<Expr, Error>)
        requires
            old(self).wf(),
        ensures
            final(self).wf(),
            final(self).tokens.values == old(self).tokens.values,
            ({
                match sp_expression(old(self).toks(), old(self).pos()) {
                    PStep::Done { expr, next } => r matches Ok(e) && e@ == expr
                        && final(self).pos() == next,
                    PStep::Fail { error, at } => r matches Err(d) && d@ == error
                        && final(self).pos() == at,
                }
            }),
        decreases
                old(self).tokens.values.len() - old(self).pos(),
                9int,
    {
        self.ternary()
    }

    /// ternary -> equality ( "?" expression ":" expression )?
    fn ternary(&mut self) -> (r: Result<Expr, Error>)
        requires
            old(self).wf(),
        ensures
            final(self).wf(),
            final(self).tokens.values == old(self).tokens.values,
            ({
                match sp_ternary(old(self).toks(), old(self).pos()) {
                    PStep::Done { expr, next } => r matches Ok(e) && e@ == expr
                        && final(self).pos() == next,
                    PStep::Fail { error, at } => r matches Err(d) && d@ == error
                        && final(self).pos() == at,
                }
            }),
        decreases
                old(self).tokens.values.len() - old(self).pos(),
                8int,
    {
        let ghost t0 = self.toks();
        let ghost i0 = self.pos();
        let cond = match self.binary(0) {
            Ok(e) => e,
            Err(d) => {
                return Err(d);
            },
        };
        proof {
            lemma_binary_ok(t0, i0, 0);
        }
        let predq = |t: &Token| -> (b: bool)
            ensures
                b == (t@.token_type == TokenType::Question),
            { t.token_type == TokenType::Question };
        proof {
            assert(forall|t: &Token| #[trigger] call_requires(predq, (t,)));
        }
        if self.tokens.advance_if(predq).is_some() {
            let ghost nq = self.pos();
            let cons = match self.expression() {
                Ok(e) => e,
                Err(d) => {
                    return Err(d);
                },
            };
            proof {
                lemma_expression_ok(t0, nq);
            }
            let predc = |t: &Token| -> (b: bool)
                ensures
                    b == (t@.token_type == TokenType::Colon),
                { t.token_type == TokenType::Colon };
            proof {
                assert(forall|t: &Token| #[trigger] call_requires(predc, (t,)));
            }
            if self.tokens.advance_if(predc).is_some() {
                let alt = match self.expression() {
                    Ok(e) => e,
                    Err(d) => {
                        return Err(d);
                    },
                };
                Ok(Expr::Cond(Box::new(Cond { cond, cons, alt })))
            } else {
                Err(self.make_error("No alternate condition provided"))
            }
        } else {
            Ok(cond)
        }
    }

    /// One left-associative binary tier, `level` 0 through 3: equality,
    /// comparison, term, factor.
    fn binary(&mut self, level: usize) -> (r: Result<Expr, Error>)
        requires
            old(self).wf(),
            level <= 3,
        ensures
            final(self).wf(),
            final(self).tokens.values == old(self).tokens.values,
            ({
                match sp_binary(old(self).toks(), old(self).pos(), level as int) {
                    PStep::Done { expr, next } => r matches Ok(e) && e@ == expr
                        && final(self).pos() == next,
                    PStep::Fail { error, at } => r matches Err(d) && d@ == error
                        && final(self).pos() == at,
                }
            }),
        decreases
                old(self).tokens.values.len() - old(self).pos(),
                7int - level,
    {
        let ghost t0 = self.toks();
        let ghost i0 = self.pos();
        let first = if level < 3 {
            self.binary(level + 1)
        } else {
            self.unary()
        };
        let mut e = match first {
            Ok(e) => e,
            Err(d) => {
                return Err(d);
            },
        };
        proof {
            if level < 3 {
                lemma_binary_ok(t0, i0, level as int + 1);
            } else {
                lemma_unary_ok(t0, i0);
            }
        }
        let lv = level;
        loop
            invariant
                self.wf(),
                self.tokens.values == old(self).tokens.values,
                t0 == token_views(old(self).tokens.values@),
                i0 == old(self).pos(),
                lv == level <= 3,
                i0 <= self.pos() <= t0.len(),
                sp_binary_rest(t0, self.pos(), level as int, e@) == sp_binary(
                    t0,
                    i0,
                    level as int,
                ),
            decreases t0.len() - self.pos(),
        {
            let ghost j = self.pos();
            let pred = |t: &Token| -> (b: bool)
                ensures
                    b == level_op(lv as int, t@.token_type),
                {
                    if lv == 0 {
                        t.token_type == TokenType::BangEqual || t.token_type
                            == TokenType::EqualEqual
                    } else if lv == 1 {
                        t.token_type == TokenType::Greater || t.token_type
                            == TokenType::GreaterEqual || t.token_type == TokenType::Less
                            || t.token_type == TokenType::LessEqual
                    } else if lv == 2 {
                        t.token_type == TokenType::Plus || t.token_type == TokenType::Minus
                    } else {
                        t.token_type == TokenType::Slash || t.token_type == TokenType::Star
                    }
                };
            proof {
                assert(forall|t: &Token| #[trigger] call_requires(pred, (t,)));
            }
            let opt = self.tokens.advance_if(pred);
            let op = match opt {
                Some(t) => t.clone(),
                None => {
                    return Ok(e);
                },
            };
            let sub = if level < 3 {
                self.binary(level + 1)
            } else {
                self.unary()
            };
            let right = match sub {
                Ok(x) => x,
                Err(d) => {
                    return Err(d);
                },
            };
            proof {
                if level < 3 {
                    lemma_binary_ok(t0, j + 1, level as int + 1);
                } else {
                    lemma_unary_ok(t0, j + 1);
                }
            }
            e = Expr::Bin(Box::new(Bin { left: e, operator: op, right }));
        }
    }

    /// unary -> ("!" | "-") unary | primary
    fn unary(&mut self) -> (r: Result<Expr, Error>)
        requires
            old(self).wf(),
        ensures
            final(self).wf(),
            final(self).tokens.values == old(self).tokens.values,
            ({
                match sp_unary(old(self).toks(), old(self).pos()) {
                    PStep::Done { expr, next } => r matches Ok(e) && e@ == expr
                        && final(self).pos() == next,
                    PStep::Fail { error, at } => r matches Err(d) && d@ == error
                        && final(self).pos() == at,
                }
            }),
        decreases
                old(self).tokens.values.len() - old(self).pos(),
                2int,
    {
        let pred = |t: &Token| -> (b: bool)
            ensures
                b == (t@.token_type == TokenType::Bang || t@.token_type == TokenType::Minus),
            { t.token_type == TokenType::Bang || t.token_type == TokenType::Minus };
        proof {
            assert(forall|t: &Token| #[trigger] call_requires(pred, (t,)));
        }
        let opt = self.tokens.advance_if(pred);
        match opt {
            Some(t) => {
                let op = t.clone();
                let right = match self.unary() {
                    Ok(x) => x,
                    Err(d) => {
                        return Err(d);
                    },
                };
                Ok(Expr::Un(Box::new(Un { operator: op, right })))
            },
            None => self.primary(),
        }
    }

    /// primary -> NUMBER | STRING | "true" | "false" | "nil"
    ///          | "(" expression ")"
    fn primary(&mut self) -> (r: Result<Expr, Error>)
        requires
            old(self).wf(),
        ensures
            final(self).wf(),
            final(self).tokens.values == old(self).tokens.values,
            ({
                match sp_primary(old(self).toks(), old(self).pos()) {
                    PStep::Done { expr, next } => r matches Ok(e) && e@ == expr
                        && final(self).pos() == next,
                    PStep::Fail { error, at } => r matches Err(d) && d@ == error
                        && final(self).pos() == at,
                }
            }),
        decreases
                old(self).tokens.values.len() - old(self).pos(),
                1int,
    {
        let ghost t0 = self.toks();
        let ghost i0 = self.pos();
        let pred = |t: &Token| -> (b: bool)
            ensures
                b == can_start_primary(t@.token_type),
            {
                t.token_type == TokenType::True || t.token_type == TokenType::False
                    || t.token_type == TokenType::Nil || t.token_type == TokenType::String
                    || t.token_type == TokenType::Number || t.token_type == TokenType::LeftParen
            };
        proof {
            assert(forall|t: &Token| #[trigger] call_requires(pred, (t,)));
        }
        let opt = self.tokens.advance_if(pred);
        let tok = match opt {
            Some(t) => t.clone(),
            None => {
                return Err(self.make_error("Invalid token to start an expression."));
            },
        };
        match tok.token_type {
            TokenType::True => Ok(
                Expr::Lit(Lit { value: Some(Literal::Identifier(String::from_str("true"))) }),
            ),
            TokenType::False => Ok(
                Expr::Lit(Lit { value: Some(Literal::Identifier(String::from_str("false"))) }),
            ),
            TokenType::Nil => Ok(Expr::Lit(Lit { value: None })),
            TokenType::String => Ok(Expr::Lit(Lit { value: tok.literal })),
            TokenType::Number => Ok(Expr::Lit(Lit { value: tok.literal })),
            TokenType::LeftParen => {
                let inner = match self.expression() {
                    Ok(x) => x,
                    Err(d) => {
                        return Err(d);
                    },
                };
                proof {
                    lemma_expression_ok(t0, i0 + 1);
                }
                let predr = |t: &Token| -> (b: bool)
                    ensures
                        b == (t@.token_type == TokenType::RightParen),
                    { t.token_type == TokenType::RightParen };
                proof {
                    assert(forall|t: &Token| #[trigger] call_requires(predr, (t,)));
                }
                if self.tokens.advance_if(predr).is_some() {
                    Ok(Expr::Grp(Box::new(Grp { expression: inner })))
                } else {
                    Err(self.make_error("Invalid token to start an expression."))
                }
            },
            _ => {
                proof {
                    assert(false);
                }
                Err(self.make_error("Invalid token to start an expression."))
            },
        }
    }
}

/// Parses a complete token sequence into a single expression tree, or
/// rejects it with every syntax diagnostic found, in discovery order.
/// Tokens after a complete expression are ignored.
pub fn parse(tokens: &Vec<Token>) -> (r: Result<Expr, Vec<Error>>)
    ensures
        ({
            let out = sp_parse(token_views(tokens@));
            match r {
                Ok(e) => out == Parsed::Accepted(e@),
                Err(errs) => out == Parsed::Rejected(error_views(errs@)),
            }
        }),
{
    let mut parser = Parser::new(tokens);
    let ghost t0 = parser.toks();
    let mut errs: Vec<Error> = Vec::new();
    proof {
        assert(error_views(errs@) =~= Seq::<ErrorModel>::empty());
    }
    loop
        invariant
            parser.wf(),
            t0 == token_views(tokens@),
            parser.toks() == t0,
            0 <= parser.pos() <= t0.len(),
            sp_parse_from(t0, parser.pos(), error_views(errs@)) == sp_parse(t0),
        decreases t0.len() - parser.pos(),
    {
        let ghost i = parser.pos();
        match parser.expression() {
            Ok(e) => {
                if errs.len() == 0 {
                    return Ok(e);
                } else {
                    return Err(errs);
                }
            },
            Err(d) => {
                proof {
                    lemma_expression_ok(t0, i);
                    lemma_error_views_push(errs@, d);
                }
                let ghost at = parser.pos();
                errs.push(d);
                parser.synchronize();
                proof {
                    lemma_sync_pos(t0, at);
                }
                if parser.at_end() {
                    return Err(errs);
                }
            },
        }
    }
}

} // verus!
