use exprcalc::diagnostic::diagnostic;
use exprcalc::lexer::Token;
use exprcalc::parser::Oparand;
use exprcalc::session::{is_blank, Outcome, Session};

fn literal(text: &String) -> f64 {
    text.parse::<f64>().unwrap()
}

fn combine(o: Oparand, a: f64, b: f64) -> f64 {
    match o {
        Oparand::Add => a + b,
        Oparand::Sub => a - b,
        Oparand::Mul => a * b,
        Oparand::Div => a / b,
        Oparand::Pow => a.powf(b),
    }
}

#[test]
fn new_session_holds_initial_value() {
    let s = Session::new(0.0);
    assert_eq!(s.last_result, 0.0);
}

#[test]
fn value_becomes_last_result() {
    let mut s = Session::new(0.0);
    match s.process_line("2+3", &literal, &combine) {
        Outcome::Value(v) => assert_eq!(v, 5.0),
        _ => panic!("expected a value"),
    }
    assert_eq!(s.last_result, 5.0);
    match s.process_line("_+1", &literal, &combine) {
        Outcome::Value(v) => assert_eq!(v, 6.0),
        _ => panic!("expected a value"),
    }
    assert_eq!(s.last_result, 6.0);
}

#[test]
fn blank_lines_change_nothing() {
    let mut s = Session::new(5.0);
    for line in ["", "   ", "\t", " \t \u{3000}"] {
        assert!(matches!(s.process_line(line, &literal, &combine), Outcome::Blank));
        assert_eq!(s.last_result, 5.0);
    }
}

#[test]
fn failed_line_keeps_last_result() {
    let mut s = Session::new(0.0);
    assert!(matches!(s.process_line("7", &literal, &combine), Outcome::Value(_)));
    match s.process_line("1+#", &literal, &combine) {
        Outcome::Rejected(t) => assert_eq!(t.describe(), "Unknown(2)"),
        _ => panic!("expected a rejection"),
    }
    assert_eq!(s.last_result, 7.0);
    match s.process_line("_*2", &literal, &combine) {
        Outcome::Value(v) => assert_eq!(v, 14.0),
        _ => panic!("expected a value"),
    }
}

#[test]
fn blank_test_uses_unicode_whitespace() {
    assert!(is_blank(""));
    assert!(is_blank(" \t"));
    assert!(is_blank("\u{3000}\u{a0}"));
    assert!(!is_blank(" a "));
    assert!(!is_blank("_"));
}

#[test]
fn diagnostic_unmatched_paren() {
    let (caret, message) = diagnostic(&Token::EOE(Some(0)), 4);
    assert_eq!(caret, "  ^");
    assert_eq!(message, "  Unexpected end of input: Expected closing parenthesis");
}

#[test]
fn diagnostic_truncated_input() {
    let (caret, message) = diagnostic(&Token::EOE(None), 2);
    assert_eq!(caret, "    ^");
    assert_eq!(message, "  Unexpected end of input");
    let (_, message) = diagnostic(&Token::EOE(Some(3)), 3);
    assert_eq!(message, "  Unexpected end of input");
}

#[test]
fn diagnostic_invalid_token() {
    let (caret, message) = diagnostic(&Token::Unknown(2), 3);
    assert_eq!(caret, "    ^");
    assert_eq!(message, "    Invalid Token: Unknown(2)");
    let (caret, message) = diagnostic(&Token::Integer("2".to_string(), 12), 13);
    assert_eq!(caret, format!("{}^", " ".repeat(14)));
    assert_eq!(message, format!("{}Invalid Token: Integer(\"2\", 12)", " ".repeat(14)));
}
