use exprcalc::eval::evaluate;
use exprcalc::lexer::{lex, Token};
use exprcalc::parser::{parse, Oparand};

fn literal(text: &String) -> f64 {
    text.parse::<f64>().unwrap()
}

fn combine(o: Oparand, a: f64, b: f64) -> f64 {
    match o {
        Oparand::Add => a + b,
        Oparand::Sub => a - b,
        Oparand::Mul => a * b,
        Oparand::Div => a / b,
        Oparand::Pow => a.powf(b),
    }
}

fn eval_line(line: &str, last: f64) -> Result<f64, Token> {
    let tokens = lex(line);
    let tree = parse(&tokens)?;
    Ok(evaluate(&tree, last, &literal, &combine))
}

fn error_of(line: &str) -> String {
    match parse(&lex(line)) {
        Ok(tree) => panic!("parsed: {:?}", tree),
        Err(e) => e.describe(),
    }
}

#[test]
fn power_is_right_associative() {
    assert_eq!(eval_line("2^3^2", 0.0).unwrap(), 512.0);
}

#[test]
fn power_tree_shape() {
    let tree = parse(&lex("2^3^2")).unwrap();
    assert_eq!(
        format!("{:?}", tree),
        "Operation(Pow, Integer(\"2\"), Operation(Pow, Integer(\"3\"), Integer(\"2\")))"
    );
}

#[test]
fn juxtaposition_multiplies() {
    assert_eq!(eval_line("3(4+1)", 0.0).unwrap(), 15.0);
    assert_eq!(eval_line("2(3)(4)", 0.0).unwrap(), 24.0);
}

#[test]
fn scientific_notation() {
    assert_eq!(eval_line("1.5e2", 0.0).unwrap(), 150.0);
    assert_eq!(eval_line("2e(1+1)", 0.0).unwrap(), 200.0);
    assert_eq!(eval_line("5E0", 0.0).unwrap(), 5.0);
}

#[test]
fn scientific_tree_shape() {
    let tree = parse(&lex("1.5e2")).unwrap();
    assert_eq!(
        format!("{:?}", tree),
        "Operation(Mul, Float(\"1.5\"), Operation(Pow, Integer(\"10\"), Integer(\"2\")))"
    );
}

#[test]
fn unmatched_open_paren_points_at_it() {
    assert_eq!(error_of("(1+2"), "EOE(Some(0))");
    assert_eq!(error_of("3(1"), "EOE(Some(1))");
}

#[test]
fn unknown_character_is_reported() {
    assert_eq!(error_of("1+#"), "Unknown(2)");
}

#[test]
fn standard_precedence() {
    assert_eq!(eval_line("1+2*3", 0.0).unwrap(), 7.0);
    assert_eq!(eval_line("(1+2)*3", 0.0).unwrap(), 9.0);
    assert_eq!(eval_line("10-4-3", 0.0).unwrap(), 3.0);
    assert_eq!(eval_line("8/4/2", 0.0).unwrap(), 1.0);
    assert_eq!(eval_line("2*3^2", 0.0).unwrap(), 18.0);
    assert_eq!(eval_line("7 - 2 * (1 + 1) / 4", 0.0).unwrap(), 6.0);
    assert_eq!(eval_line("((((5))))", 0.0).unwrap(), 5.0);
}

#[test]
fn unary_signs() {
    assert_eq!(eval_line("-3", 0.0).unwrap(), -3.0);
    assert_eq!(eval_line("+3", 0.0).unwrap(), 3.0);
    assert_eq!(eval_line("2*-3", 0.0).unwrap(), -6.0);
    assert_eq!(eval_line("-2^2", 0.0).unwrap(), 4.0);
    assert_eq!(error_of("--3"), "Minus(1)");
}

#[test]
fn negation_tree_shape() {
    let tree = parse(&lex("-4")).unwrap();
    assert_eq!(format!("{:?}", tree), "Operation(Sub, Float(\"0.0\"), Integer(\"4\"))");
}

#[test]
fn division_follows_floating_point() {
    assert_eq!(eval_line("1/0", 0.0).unwrap(), f64::INFINITY);
    assert!(eval_line("0/0", 0.0).unwrap().is_nan());
    assert!(eval_line("(-8)^0.5", 0.0).unwrap().is_nan());
}

#[test]
fn last_result_reference() {
    assert_eq!(eval_line("_", 42.0).unwrap(), 42.0);
    assert_eq!(eval_line("_*2+_", 3.0).unwrap(), 9.0);
}

#[test]
fn syntax_errors_name_the_token() {
    assert_eq!(error_of("1 2"), "Integer(\"2\", 2)");
    assert_eq!(error_of("3)"), "RParen(1)");
    assert_eq!(error_of("1+"), "EOE(None)");
    assert_eq!(error_of(""), "EOE(None)");
    assert_eq!(error_of("(1 2)"), "Integer(\"2\", 3)");
    assert_eq!(error_of("*2"), "Asterisk(0)");
    assert_eq!(error_of("2e"), "EOE(None)");
    assert_eq!(error_of("e"), "E(0)");
}

#[test]
fn literal_round_trip() {
    let tokens = lex("12.5*3");
    let text = match &tokens[0] {
        Token::Float(s, _) => s.clone(),
        other => panic!("{}", other.describe()),
    };
    let again = lex(&text);
    assert_eq!(again.len(), 1);
    assert_eq!(again[0].describe(), "Float(\"12.5\", 0)");
    assert_eq!(eval_line(&text, 0.0).unwrap(), 12.5);
    assert_eq!(eval_line("12.5*3", 0.0).unwrap(), 12.5 * 3.0);
}

#[test]
fn parentheses_group_first() {
    assert_eq!(eval_line("(2^3)^2", 0.0).unwrap(), 64.0);
    assert_eq!(eval_line("2*(3+4)", 0.0).unwrap(), 14.0);
    assert_eq!(eval_line("(1+2)^2", 0.0).unwrap(), 9.0);
    assert_eq!(eval_line("10-(4-3)", 0.0).unwrap(), 9.0);
}

#[test]
fn left_associative_tree_shape() {
    let tree = parse(&lex("1-2-3")).unwrap();
    assert_eq!(
        format!("{:?}", tree),
        "Operation(Sub, Operation(Sub, Integer(\"1\"), Integer(\"2\")), Integer(\"3\"))"
    );
    let tree = parse(&lex("1+2*3")).unwrap();
    assert_eq!(
        format!("{:?}", tree),
        "Operation(Add, Integer(\"1\"), Operation(Mul, Integer(\"2\"), Integer(\"3\")))"
    );
}
