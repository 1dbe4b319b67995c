use objective_shell::lexer::{tokenize_expr, tokenize_program};
use objective_shell::number::is_number_token;
use objective_shell::text::trim_str;

fn toks(input: &str) -> Vec<String> {
    tokenize_expr(input)
}

#[test]
fn expr_splits_on_whitespace() {
    assert_eq!(toks("5 + 3"), vec!["5", "+", "3"]);
}

#[test]
fn expr_keeps_brackets_together() {
    assert_eq!(toks("[1 2 3] Length"), vec!["[1 2 3]", "Length"]);
}

#[test]
fn expr_keeps_parens_and_braces_together() {
    assert_eq!(toks("(a + b) {x; y}"), vec!["(a + b)", "{x; y}"]);
    assert_eq!(toks("(a (b c) d)"), vec!["(a (b c) d)"]);
}

#[test]
fn expr_quoted_literal_is_its_own_token() {
    assert_eq!(toks("\"a\"b"), vec!["\"a\"", "b"]);
    assert_eq!(toks("\"hello world\" PrintLn"), vec!["\"hello world\"", "PrintLn"]);
}

#[test]
fn expr_closer_at_depth_zero_is_dropped() {
    assert_eq!(toks("a)b"), vec!["ab"]);
}

#[test]
fn expr_group_flush_splits_token() {
    assert_eq!(toks("(a)b"), vec!["(a)", "b"]);
}

#[test]
fn expr_unterminated_group_or_quote_drops_trailing_token() {
    assert_eq!(toks("\"abc"), Vec::<String>::new());
    assert_eq!(toks("(a b"), Vec::<String>::new());
    assert_eq!(toks("x (a b"), vec!["x"]);
}

#[test]
fn expr_whitespace_kinds_separate() {
    assert_eq!(toks("a\tb\nc\rd\u{3000}e"), vec!["a", "b", "c", "d", "e"]);
}

#[test]
fn expr_empty_input_gives_no_tokens() {
    assert_eq!(toks(""), Vec::<String>::new());
    assert_eq!(toks("   "), Vec::<String>::new());
}

#[test]
fn program_splits_statements_and_assignments() {
    assert_eq!(
        tokenize_program("a = 1; b"),
        vec![vec!["a ".to_string(), " 1".to_string()], vec![" b".to_string()]],
    );
}

#[test]
fn program_single_expression() {
    assert_eq!(tokenize_program("5 + 3"), vec![vec!["5 + 3".to_string()]]);
}

#[test]
fn program_semicolon_inside_braces_is_literal() {
    assert_eq!(
        tokenize_program("x = {a; b}; y"),
        vec![vec!["x ".to_string(), " {a; b}".to_string()], vec![" y".to_string()]],
    );
}

#[test]
fn program_semicolon_inside_quotes_is_literal() {
    assert_eq!(
        tokenize_program("a = \"x;y\""),
        vec![vec!["a ".to_string(), " \"x;y\"".to_string()]],
    );
}

#[test]
fn program_second_equals_is_expression_text() {
    assert_eq!(
        tokenize_program("a = 1 = 2"),
        vec![vec!["a ".to_string(), " 1 = 2".to_string()]],
    );
}

#[test]
fn program_empty_statements_are_skipped() {
    assert_eq!(tokenize_program(";;a;;"), vec![vec!["a".to_string()]]);
    assert_eq!(tokenize_program(""), Vec::<Vec<String>>::new());
}

#[test]
fn program_open_brace_drops_trailing_statement() {
    assert_eq!(tokenize_program("a = {b"), Vec::<Vec<String>>::new());
}

#[test]
fn number_tokens_accepted() {
    for t in [
        "5", "5.5", "-3", "+7", ".5", "5.", "1e3", "1E3", "-2.5e-4", "5.e3", "inf", "-inf",
        "Infinity", "NaN", "nan", "INF",
    ] {
        assert!(is_number_token(t), "{t} should be a number");
    }
}

#[test]
fn number_tokens_rejected() {
    for t in [
        "", "abc", "+", "-", ".", "e5", "1e", "1e+", "1.2.3", "5 5", "0x10", "in", "infin",
        "nano", "１", "5a",
    ] {
        assert!(!is_number_token(t), "{t} should not be a number");
    }
}

#[test]
fn trim_removes_unicode_whitespace() {
    assert_eq!(trim_str("  a b \t\n"), "a b");
    assert_eq!(trim_str("\u{3000}x\u{a0}"), "x");
    assert_eq!(trim_str("   "), "");
}
