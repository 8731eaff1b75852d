//! Tokens of the lexical grammar: the closed set of token kinds, the literal
//! payloads a token may carry, and the `Token` value itself.
//!
//! A token records its kind, its lexeme text, an optional literal value, and
//! the line and column (a character offset) at which scanning of the lexeme
//! ended.  Equality between tokens compares only the kind: lexeme and
//! position are metadata, not identity.

use vstd::prelude::*;

verus! {

/// The closed set of token kinds: single-character punctuation,
/// one-or-two-character operators, the literal kinds, the reserved keywords,
/// the ternary punctuation and the terminator.
#[derive(Debug, Copy, Clone, PartialEq, Eq, Structural)]
pub enum TokenType {
    // Single character tokens.
    LeftParen,
    RightParen,
    LeftBrace,
    RightBrace,
    Comma,
    Dot,
    Semicolon,
    Minus,
    Plus,
    Slash,
    Star,
    // One or two character tokens.
    Bang,
    BangEqual,
    Equal,
    EqualEqual,
    Greater,
    GreaterEqual,
    Less,
    LessEqual,
    // Ternary punctuation.
    Question,
    Colon,
    // Literals.
    Identifier,
    String,
    Number,
    // Keywords.
    And,
    Class,
    Else,
    False,
    Fun,
    For,
    If,
    Nil,
    Or,
    Print,
    Return,
    Super,
    This,
    True,
    Var,
    While,
    Eof,
}

/// A literal value carried by an `Identifier`, `String` or `Number` token.
///
/// A number literal holds the decimal text of the scanned numeral (a digit
/// run, optionally followed by `.` and a second digit run) rather than a
/// machine float; callers that need the numeric value parse this text.
#[derive(Debug)]
pub enum Literal {
    Identifier(String),
    Str(String),
    Number(String),
}

/// The mathematical value of a `Literal`: the variant together with its text
/// as a sequence of characters.
pub enum LiteralModel {
    Identifier(Seq<char>),
    Str(Seq<char>),
    Number(Seq<char>),
}

impl View for Literal {
    type V = LiteralModel;

    open spec fn view(&self) -> LiteralModel {
        match self {
            Literal::Identifier(t) => LiteralModel::Identifier(t@),
            Literal::Str(t) => LiteralModel::Str(t@),
            Literal::Number(t) => LiteralModel::Number(t@),
        }
    }
}

impl Literal {
    /// The numeral text of a number literal, if this is one.
    pub fn as_number(self) -> (r: Option<String>)
        ensures
            match self {
                Literal::Number(t) => r == Some(t),
                _ => r is None,
            },
    {
        match self {
            Literal::Number(t) => Some(t),
            _ => None,
        }
    }

    /// The identifier text, if this is an identifier literal.
    pub fn as_identifier(self) -> (r: Option<String>)
        ensures
            match self {
                Literal::Identifier(t) => r == Some(t),
                _ => r is None,
            },
    {
        match self {
            Literal::Identifier(t) => Some(t),
            _ => None,
        }
    }

    /// The string contents, if this is a string literal.
    pub fn as_string(self) -> (r: Option<String>)
        ensures
            match self {
                Literal::Str(t) => r == Some(t),
                _ => r is None,
            },
    {
        match self {
            Literal::Str(t) => Some(t),
            _ => None,
        }
    }
}

impl Clone for Literal {
    fn clone(&self) -> (r: Self)
        ensures
            r == *self,
    {
        match self {
            Literal::Identifier(t) => Literal::Identifier(t.clone()),
            Literal::Str(t) => Literal::Str(t.clone()),
            Literal::Number(t) => Literal::Number(t.clone()),
        }
    }
}

/// The mathematical value of a `Token`: every field, with text as character
/// sequences and positions as unbounded integers.
pub struct TokenModel {
    pub token_type: TokenType,
    pub lexeme: Seq<char>,
    pub literal: Option<LiteralModel>,
    pub line: int,
    pub col: int,
}

/// A scanned token.  `line` counts newlines seen before the token, starting
/// at 1; `col` is the character offset just past the token's last scanned
/// character, counted from the start of the source.
#[derive(Debug)]
pub struct Token {
    pub token_type: TokenType,
    pub lexeme: String,
    pub line: usize,
    pub col: usize,
    pub literal: Option<Literal>,
}

impl View for Token {
    type V = TokenModel;

    open spec fn view(&self) -> TokenModel {
        TokenModel {
            token_type: self.token_type,
            lexeme: self.lexeme@,
            literal: match self.literal {
                Some(l) => Some(l@),
                None => None,
            },
            line: self.line as int,
            col: self.col as int,
        }
    }
}

impl Token {
    pub fn new(
        token_type: TokenType,
        lexeme: String,
        literal: Option<Literal>,
        line: usize,
        col: usize,
    ) -> (r: Self)
        ensures
            r@ == (TokenModel {
                token_type,
                lexeme: lexeme@,
                literal: match literal {
                    Some(l) => Some(l@),
                    None => None,
                },
                line: line as int,
                col: col as int,
            }),
    {
        Token { token_type, lexeme, literal, col, line }
    }
}

impl Clone for Token {
    fn clone(&self) -> (r: Self)
        ensures
            r == *self,
    {
        Token {
            token_type: self.token_type,
            lexeme: self.lexeme.clone(),
            line: self.line,
            col: self.col,
            literal: match &self.literal {
                Some(l) => Some(l.clone()),
                None => None,
            },
        }
    }
}

impl PartialEq for Token {
    /// Token equality compares only the kind.
    fn eq(&self, other: &Self) -> (r: bool) {
        self.token_type == other.token_type
    }
}

impl vstd::std_specs::cmp::PartialEqSpecImpl for Token {
    open spec fn obeys_eq_spec() -> bool {
        true
    }

    open spec fn eq_spec(&self, other: &Self) -> bool {
        self.token_type == other.token_type
    }
}

} // verus!
