use lox_front::parser::parse;
use lox_front::scanner::scan_tokens;
use lox_front::token::Token;

fn tokens_of(source: &str) -> Vec<Token> {
    scan_tokens(&source.to_string()).expect("expected a clean scan")
}

fn parsed_render(source: &str) -> String {
    parse(&tokens_of(source)).expect("expected a clean parse").render()
}

#[test]
fn parse_precedence_binds_factor_tighter() {
    assert_eq!(parsed_render("1 + 2 * 3"), "(+ 1 (* 2 3))");
}

#[test]
fn parse_grouping_overrides_precedence() {
    assert_eq!(parsed_render("(1 + 2) * 3"), "(* (grp (+ 1 2)) 3)");
}

#[test]
fn parse_ternary_conditional() {
    assert_eq!(parsed_render("true ? 1 : 2"), "(true ? 1 : 2)");
}

#[test]
fn parse_ternary_chains_to_the_right() {
    assert_eq!(
        parsed_render("true ? 1 : false ? 2 : 3"),
        "(true ? 1 : (false ? 2 : 3))"
    );
}

#[test]
fn parse_binary_tiers_fold_to_the_left() {
    assert_eq!(parsed_render("1 - 2 + 3"), "(+ (- 1 2) 3)");
    assert_eq!(parsed_render("1 < 2 == 3 > 4"), "(== (< 1 2) (> 3 4))");
    assert_eq!(parsed_render("8 / 4 / 2"), "(/ (/ 8 4) 2)");
}

#[test]
fn parse_unary_nests_to_the_right() {
    assert_eq!(parsed_render("!!true"), "(! (! true))");
    assert_eq!(parsed_render("--1"), "(- (- 1))");
}

#[test]
fn parse_literals() {
    assert_eq!(parsed_render("nil"), "nil");
    assert_eq!(parsed_render("false"), "false");
    assert_eq!(parsed_render("\"hi\""), "hi");
    assert_eq!(parsed_render("12.5"), "12.5");
}

#[test]
fn parse_missing_alternative_is_an_error() {
    let errors = parse(&tokens_of("1 ? 2 2")).unwrap_err();
    assert_eq!(errors.len(), 1);
    assert_eq!(errors[0].message, "Syntax Error: No alternate condition provided");
}

#[test]
fn parse_missing_closing_paren_is_an_error() {
    let errors = parse(&tokens_of("(1 + 2")).unwrap_err();
    assert_eq!(errors.len(), 1);
    assert_eq!(
        errors[0].message,
        "Syntax Error: Invalid token to start an expression."
    );
}

#[test]
fn parse_bad_primary_is_an_error() {
    let errors = parse(&tokens_of("+ 1")).unwrap_err();
    assert_eq!(errors.len(), 1);
    assert_eq!(
        errors[0].message,
        "Syntax Error: Invalid token to start an expression."
    );
}

#[test]
fn parse_collects_several_errors_in_one_pass() {
    // The first failure is at the leading `?`; the parser synchronizes to
    // `1`, fails again at the dangling `*`, synchronizes to `2`, and ends
    // with both diagnostics.
    let errors = parse(&tokens_of("? ? 1 + * 2")).unwrap_err();
    assert_eq!(errors.len(), 2);
    assert_eq!(
        errors[0].message,
        "Syntax Error: Invalid token to start an expression."
    );
    assert_eq!(
        errors[1].message,
        "Syntax Error: Invalid token to start an expression."
    );
}

#[test]
fn parse_error_carries_token_position() {
    let tokens = tokens_of("1 ? 2 2");
    let errors = parse(&tokens).unwrap_err();
    // The diagnostic points at the token where the `:` was expected.
    assert_eq!(errors[0].line, tokens[3].line);
    assert_eq!(errors[0].col, tokens[3].col);
}

#[test]
fn parse_ignores_trailing_tokens() {
    assert_eq!(parsed_render("1 2 3"), "1");
}
