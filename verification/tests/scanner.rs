use lox_front::error_fmt::Error;
use lox_front::scanner::{scan_tokens, Scanner};
use lox_front::token::{Literal, Token, TokenType};

fn scan_ok(source: &str) -> Vec<Token> {
    scan_tokens(&source.to_string()).expect("expected a clean scan")
}

#[test]
fn test_peek() {
    let scanner = Scanner::new("123".to_string());

    assert_eq!('1', scanner.peek(false).unwrap());
    assert_eq!('1', scanner.peek(false).unwrap());
    assert_ne!('2', scanner.peek(false).unwrap());
    let mut scanner = scanner;
    assert_ne!(scanner.advance().unwrap(), scanner.peek(false).unwrap());
}

#[test]
fn test_advance_until() {
    let mut marcher = lox_front::marcher::Marcher::new("123".chars().collect::<Vec<char>>());
    // Should advance until the end of the sequence
    let _ = marcher.advance_until(|c: &char| !c.is_digit(10));
    assert_eq!(marcher.advance(1), None)
}

#[test]
fn test_scan_single_char_tokens() {
    let tokens = [
        TokenType::LeftParen,
        TokenType::RightParen,
        TokenType::LeftBrace,
        TokenType::RightBrace,
        TokenType::Comma,
        TokenType::Dot,
        TokenType::Minus,
        TokenType::Plus,
        TokenType::Semicolon,
        TokenType::Star,
    ];
    let single_char_string = "\t() {},.-+; *\n".to_string();
    let single_char_tokens: Vec<Token> = scan_ok(&single_char_string);
    for i in 0..tokens.len() {
        assert_eq!(tokens[i], single_char_tokens[i].token_type)
    }
}

#[test]
fn test_scan_number_literals() {
    let tokens = [
        (TokenType::Number, 12.3),
        (TokenType::Number, 12.0),
        (TokenType::Dot, 0.0),
        (TokenType::Dot, 0.0),
        (TokenType::Number, 3.0),
    ];
    let literal_string = "12.3 12..3".to_string();
    let literal_tokens: Vec<Token> = scan_ok(&literal_string);
    for i in 0..tokens.len() {
        assert_eq!(tokens[i].0, literal_tokens[i].token_type);
        assert_eq!(
            tokens[i].1,
            literal_tokens[i]
                .literal
                .to_owned()
                .unwrap_or(Literal::Number("0".to_string()))
                .as_number()
                .unwrap()
                .parse::<f64>()
                .unwrap()
        )
    }
}

#[test]
fn test_scan_string_literals() {
    let tokens = [
        (TokenType::String, "I"),
        (TokenType::String, "waited"),
        (TokenType::Var, ""),
        (TokenType::String, "in"),
        (TokenType::And, ""),
        (TokenType::String, "the \ncinema too\n"),
        (TokenType::Dot, ""),
    ];
    let literal_string = "\"I\" \"waited\" var \"in\" and \"the \ncinema too\n\".".to_string();
    let literal_tokens: Vec<Token> = scan_ok(&literal_string);
    for i in 0..tokens.len() {
        assert_eq!(tokens[i].0, literal_tokens[i].token_type);
        assert_eq!(
            tokens[i].1,
            literal_tokens[i]
                .literal
                .to_owned()
                .unwrap_or(Literal::Str("".to_string()))
                .as_string()
                .unwrap()
        )
    }
}

#[test]
fn test_scan_identifier_literals() {
    let tokens = [
        (TokenType::And, ""),
        (TokenType::Class, ""),
        (TokenType::Else, ""),
        (TokenType::False, ""),
        (TokenType::Fun, ""),
        (TokenType::For, ""),
        (TokenType::If, ""),
        (TokenType::Nil, ""),
        (TokenType::Or, ""),
        (TokenType::Print, ""),
        (TokenType::Return, ""),
        (TokenType::Super, ""),
        (TokenType::This, ""),
        (TokenType::True, ""),
        (TokenType::Var, ""),
        (TokenType::While, ""),
        (TokenType::Eof, ""),
        (TokenType::Identifier, "test"),
        (TokenType::Identifier, "THIS"),
        (TokenType::Identifier, "Let"),
    ];
    let literal_string =
        "and class else false fun for if nil or print return super this true var while eof test THIS Let"
            .to_string();
    let literal_tokens: Vec<Token> = scan_ok(&literal_string);
    for i in 0..tokens.len() {
        assert_eq!(tokens[i].0, literal_tokens[i].token_type);
        assert_eq!(
            tokens[i].1,
            literal_tokens[i]
                .literal
                .to_owned()
                .unwrap_or(Literal::Identifier("".to_string()))
                .as_identifier()
                .unwrap()
        )
    }
}

#[test]
fn test_advance_if() {
    let mut scanner = Scanner::new("123".to_string());
    assert_eq!(scanner.advance_if('1'), true);
    assert_eq!(scanner.advance_if('3'), false);
    assert_eq!(scanner.advance_if('2'), true);
}

#[test]
fn test_scan_single_or_double_char_tokens() {
    let tokens = [
        TokenType::Bang,
        TokenType::GreaterEqual,
        TokenType::EqualEqual,
        TokenType::BangEqual,
        TokenType::Less,
        TokenType::LessEqual,
        TokenType::Greater,
    ];
    let single_or_double_string = "\t! >= ==!= < <= >\n".to_string();
    let single_or_double_tokens = scan_ok(&single_or_double_string);
    for i in 0..tokens.len() {
        assert_eq!(tokens[i], single_or_double_tokens[i].token_type)
    }
}

#[test]
fn test_errors() {
    let error = Error {
        message: "Lexical Error: Unexpected character.".to_string(),
        text: "".to_string(),
        line: 1,
        col: 1,
    };

    let error2 = Error {
        message: "Lexical Error: Unterminated string.".to_string(),
        text: "".to_string(),
        line: 1,
        col: 7,
    };

    let error_string = "~ \"test ".to_string();
    let mut scanner = Scanner::new(String::new());
    scanner.scan_tokens(error_string);
    assert_eq!(error.message, scanner.errors[0].message);
    assert_eq!(error.line, scanner.errors[0].line);
    assert_eq!(error.col, scanner.errors[0].col);
    assert_eq!(error2.message, scanner.errors[1].message);
    assert_eq!(error2.line, scanner.errors[1].line);
    assert_eq!(error2.col, scanner.errors[1].col);
}

#[test]
fn scan_punctuation_run_yields_kinds_only() {
    let tokens = scan_ok("(){},.-+;*");
    let kinds: Vec<TokenType> = tokens.iter().map(|t| t.token_type).collect();
    assert_eq!(
        kinds,
        vec![
            TokenType::LeftParen,
            TokenType::RightParen,
            TokenType::LeftBrace,
            TokenType::RightBrace,
            TokenType::Comma,
            TokenType::Dot,
            TokenType::Minus,
            TokenType::Plus,
            TokenType::Semicolon,
            TokenType::Star,
        ]
    );
}

#[test]
fn scan_each_operator_exactly() {
    let cases = [
        ("!", TokenType::Bang),
        ("!=", TokenType::BangEqual),
        ("=", TokenType::Equal),
        ("==", TokenType::EqualEqual),
        (">", TokenType::Greater),
        (">=", TokenType::GreaterEqual),
        ("<", TokenType::Less),
        ("<=", TokenType::LessEqual),
        ("/", TokenType::Slash),
        ("?", TokenType::Question),
        (":", TokenType::Colon),
    ];
    for (text, kind) in cases {
        let tokens = scan_ok(text);
        assert_eq!(tokens.len(), 1, "{}", text);
        assert_eq!(tokens[0].token_type, kind, "{}", text);
    }
}

#[test]
fn scan_multiline_string_advances_line_counter() {
    let tokens = scan_ok("\"a\nb\"");
    assert_eq!(tokens.len(), 1);
    assert_eq!(tokens[0].token_type, TokenType::String);
    assert_eq!(
        tokens[0].literal.to_owned().unwrap().as_string().unwrap(),
        "a\nb"
    );
    assert_eq!(tokens[0].line, 2);
}

#[test]
fn scan_line_comment_is_silent() {
    let tokens = scan_ok("1 // all of this is ignored\n2");
    let kinds: Vec<TokenType> = tokens.iter().map(|t| t.token_type).collect();
    assert_eq!(kinds, vec![TokenType::Number, TokenType::Number]);
    assert_eq!(tokens[1].line, 2);
}

#[test]
fn scan_nested_block_comment_is_silent() {
    let tokens = scan_ok("/* a /* b */ c */ 1");
    assert_eq!(tokens.len(), 1);
    assert_eq!(tokens[0].token_type, TokenType::Number);
}

#[test]
fn scan_unterminated_block_comment_is_one_error() {
    let errors = scan_tokens(&"/* a /* b */".to_string()).unwrap_err();
    assert_eq!(errors.len(), 1);
    assert_eq!(errors[0].message, "Lexical Error: Unterminated block comment.");
}

#[test]
fn scan_unexpected_character_is_an_error() {
    let errors = scan_tokens(&"~".to_string()).unwrap_err();
    assert_eq!(errors.len(), 1);
    assert_eq!(errors[0].message, "Lexical Error: Unexpected character.");
    assert_eq!(errors[0].line, 1);
    assert_eq!(errors[0].col, 1);
}

#[test]
fn scan_number_stops_before_bare_dot() {
    let tokens = scan_ok("12.");
    let kinds: Vec<TokenType> = tokens.iter().map(|t| t.token_type).collect();
    assert_eq!(kinds, vec![TokenType::Number, TokenType::Dot]);
    assert_eq!(
        tokens[0].literal.to_owned().unwrap().as_number().unwrap(),
        "12"
    );
}

#[test]
fn scan_second_dot_starts_a_new_token() {
    let tokens = scan_ok("12.3.4");
    let kinds: Vec<TokenType> = tokens.iter().map(|t| t.token_type).collect();
    assert_eq!(kinds, vec![TokenType::Number, TokenType::Dot, TokenType::Number]);
    assert_eq!(
        tokens[0].literal.to_owned().unwrap().as_number().unwrap(),
        "12.3"
    );
}

#[test]
fn scan_empty_source_is_empty() {
    let tokens = scan_ok("");
    assert!(tokens.is_empty());
}

#[test]
fn scan_positions_never_decrease() {
    let tokens = scan_ok("1 + (2 * 3)\n!= \"a\nb\" / nil");
    for pair in tokens.windows(2) {
        assert!(pair[0].col <= pair[1].col);
        assert!(pair[0].line <= pair[1].line);
    }
}

#[test]
fn has_errors_reflects_the_diagnostic_list() {
    let mut clean = Scanner::new(String::new());
    clean.scan_tokens("1 + 2".to_string());
    assert!(!clean.has_errors());
    let mut dirty = Scanner::new(String::new());
    dirty.scan_tokens("~".to_string());
    assert!(dirty.has_errors());
}
