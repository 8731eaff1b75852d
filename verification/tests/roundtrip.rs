use lox_front::laws::render_tokens;
use lox_front::scanner::scan_tokens;
use lox_front::token::{Token, TokenType};

fn kinds_of(tokens: &[Token]) -> Vec<TokenType> {
    tokens.iter().map(|t| t.token_type).collect()
}

fn roundtrip(source: &str) {
    let tokens = scan_tokens(&source.to_string()).expect("expected a clean scan");
    let rendering = render_tokens(&tokens);
    let rescanned = scan_tokens(&rendering).expect("the rendering must scan cleanly");
    assert_eq!(kinds_of(&tokens), kinds_of(&rescanned), "{}", source);
}

#[test]
fn rescanning_a_rendering_reproduces_the_kinds() {
    roundtrip("1 + 2 * (3.5) != foo");
    roundtrip("(){},.-+;*?:");
    roundtrip("! != = == > >= < <=");
    roundtrip("and class else false fun for if nil or print return super this true var while eof");
    roundtrip("count<=12..3");
    roundtrip("");
}

#[test]
fn rendering_joins_lexemes_with_spaces() {
    let tokens = scan_tokens(&"1+2".to_string()).unwrap();
    assert_eq!(render_tokens(&tokens), "1 + 2 ");
}
