use maths::error::{EvalErrorKind, ParseErrorKind};
use maths::eval::AstEvaluator;

#[test]
fn malformed_literals_are_invalid_tokens() {
    // a bare radix prefix, a second dot, and a whole part beyond the
    // 64-bit range all make the literal invalid at the tokenizer
    for src in ["0x", "1.2.3", "0x10000000000000000", "0x1.", "0x.8", "."] {
        let err = maths::parse(src).unwrap_err();
        assert_eq!(err.kind, ParseErrorKind::InvalidToken, "for {:?}", src);
    }
    assert_eq!(
        maths::parse("0x").unwrap_err().message(),
        "Found invalid token"
    );
}

#[test]
fn stray_tokens_are_rejected() {
    assert_eq!(
        maths::parse("1, 2").unwrap_err().kind,
        ParseErrorKind::UnexpectedComma
    );
    assert_eq!(
        maths::parse("{").unwrap_err().kind,
        ParseErrorKind::UnexpectedLeftCurly
    );
    assert_eq!(
        maths::parse("]").unwrap_err().kind,
        ParseErrorKind::UnexpectedRightSquare
    );
    assert_eq!(
        maths::parse("let x").unwrap_err().kind,
        ParseErrorKind::ReservedKeyword
    );
}

#[test]
fn unterminated_call_names_the_function() {
    let err = maths::parse("f(1, 2").unwrap_err();
    assert_eq!(err.kind, ParseErrorKind::UnterminatedCall);
    assert_eq!(err.message(), "Expected RightParen, found EOF");
    assert_eq!(err.context, vec!["parsing function: f".to_string()]);
}

#[test]
fn nested_call_arguments_parse() {
    // a comma at nested depth stays inside the inner argument list
    let eval = AstEvaluator::new();
    let statement = maths::parse("gcd(gcd(4, 6), 8)").unwrap();
    assert!(eval.eval(&statement).is_ok());
}

#[test]
fn error_contexts_trace_the_failure_path() {
    let eval = AstEvaluator::new();
    let statement = maths::parse("sin(x)").unwrap();
    let err = eval.eval(&statement).unwrap_err();
    assert!(matches!(err.kind, EvalErrorKind::UndeclaredVariable(_)));
    assert_eq!(
        err.context,
        vec![
            "Evaluating expression: 'x'".to_string(),
            "When evaluating function 'sin'".to_string(),
            "Evaluating function: 'sin(x)'".to_string(),
            "Evaluating expression: 'sin(x)'".to_string(),
        ]
    );
}

#[test]
fn expression_text_renders_from_the_tree() {
    let statement = maths::parse("1 * (2 + 3)").unwrap();
    assert_eq!(statement.to_text(), "1 * ( 2 + 3 )");
    let statement = maths::parse("gcd(0x1A, -2)").unwrap();
    assert_eq!(statement.to_text(), "gcd(0x1A, -2)");
}

#[test]
fn gcd_demands_an_argument() {
    let eval = AstEvaluator::new();
    let err = eval.eval_function("gcd", &Vec::new()).unwrap_err();
    assert!(matches!(err.kind, EvalErrorKind::ArityGcd));

    let err = eval.eval_function("log_B", &Vec::new()).unwrap_err();
    assert!(matches!(
        err.kind,
        EvalErrorKind::ArityLogB { found: 0 }
    ));
}
