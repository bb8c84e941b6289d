use exprcalc::lexer::{lex, Token};

fn describe_all(line: &str) -> Vec<String> {
    lex(line).iter().map(|t| t.describe()).collect()
}

#[test]
fn lex_kinds_and_offsets() {
    assert_eq!(
        describe_all("12 + 3.5*_"),
        vec!["Integer(\"12\", 0)", "Plus(3)", "Float(\"3.5\", 5)", "Asterisk(8)", "Underscore(9)"]
    );
}

#[test]
fn lex_all_glyphs() {
    assert_eq!(
        describe_all("+-*/^_()eE"),
        vec![
            "Plus(0)", "Minus(1)", "Asterisk(2)", "Slash(3)", "Caret(4)", "Underscore(5)",
            "LParen(6)", "RParen(7)", "E(8)", "E(9)"
        ]
    );
}

#[test]
fn lex_dot_forms() {
    assert_eq!(describe_all(".5"), vec!["Float(\".5\", 0)"]);
    assert_eq!(describe_all("5."), vec!["Float(\"5.\", 0)"]);
    assert_eq!(describe_all("."), vec!["Unknown(0)"]);
    assert_eq!(describe_all(".x"), vec!["Unknown(0)", "Unknown(1)"]);
    assert_eq!(describe_all("1.2.3"), vec!["Float(\"1.2\", 0)", "Float(\".3\", 3)"]);
}

#[test]
fn lex_times_sign_counts_characters() {
    assert_eq!(describe_all("2\u{d7}3"), vec!["Integer(\"2\", 0)", "Asterisk(1)", "Integer(\"3\", 2)"]);
}

#[test]
fn lex_unknown_does_not_stop() {
    assert_eq!(
        describe_all("1+#2"),
        vec!["Integer(\"1\", 0)", "Plus(1)", "Unknown(2)", "Integer(\"2\", 3)"]
    );
}

#[test]
fn lex_skips_blanks_but_counts_them() {
    assert_eq!(describe_all("\t 7"), vec!["Integer(\"7\", 2)"]);
    assert!(lex("   ").is_empty());
    assert!(lex("").is_empty());
}

#[test]
fn lex_exponent_is_its_own_token() {
    assert_eq!(describe_all("1e5"), vec!["Integer(\"1\", 0)", "E(1)", "Integer(\"5\", 2)"]);
}

#[test]
fn token_index_offsets() {
    assert_eq!(Token::EOE(None).index(4), 4);
    assert_eq!(Token::EOE(Some(0)).index(4), 0);
    assert_eq!(Token::Plus(3).index(10), 3);
    assert_eq!(Token::Integer("12".to_string(), 7).index(10), 7);
}

#[test]
fn token_describe_forms() {
    assert_eq!(Token::EOE(Some(3)).describe(), "EOE(Some(3))");
    assert_eq!(Token::EOE(None).describe(), "EOE(None)");
    assert_eq!(Token::Plus(123).describe(), "Plus(123)");
    assert_eq!(Token::Unknown(10).describe(), "Unknown(10)");
    assert_eq!(Token::Float("0.25".to_string(), 40).describe(), "Float(\"0.25\", 40)");
}

#[test]
fn token_duplicate_keeps_fields() {
    let t = Token::Float("2.5".to_string(), 9);
    assert_eq!(t.duplicate().describe(), "Float(\"2.5\", 9)");
}
