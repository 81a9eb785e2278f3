use maths::ast::AstStatement;
use maths::error::EvalErrorKind;
use maths::eval::{AstEvaluator, Program, Step, Value};
use maths::functions::Builtin;
use maths::lexer::NumberKind;
use maths::op::Operator;

fn literal_value(neg: bool, kind: NumberKind, text: &str) -> f64 {
    let v = match kind {
        NumberKind::Dec => text.parse::<f64>().unwrap(),
        _ => {
            let radix = match kind {
                NumberKind::Hex => 16,
                _ => 2,
            };
            if let Some((whole, frac)) = text.split_once('.') {
                let num = u64::from_str_radix(whole, radix).unwrap() as f64;
                let mut frac = u64::from_str_radix(frac, radix).unwrap() as f64;
                while frac >= 1.0 {
                    frac /= radix as f64;
                }
                num + frac
            } else {
                u64::from_str_radix(text, radix).unwrap() as f64
            }
        }
    };
    if neg { -v } else { v }
}

fn gcd_fold(mut a: f64, mut b: f64) -> f64 {
    if a == 0.0 {
        return b;
    }
    while b > 0.0 {
        let r = a % b;
        a = b;
        b = r;
    }
    a
}

fn apply_op(op: Operator, a: f64, b: f64) -> f64 {
    match op {
        Operator::Add => a + b,
        Operator::Subtract => a - b,
        Operator::Multiply => a * b,
        Operator::Divide => a / b,
        Operator::Modulo => a % b,
        Operator::Xor => (a as i64 ^ b as i64) as f64,
        Operator::BitAnd => (a as i64 & b as i64) as f64,
        Operator::BitOr => (a as i64 | b as i64) as f64,
        Operator::Exponent => a.powf(b),
        Operator::LeftParen | Operator::RightParen => unreachable!(),
    }
}

fn apply_unary(f: Builtin, x: f64) -> f64 {
    match f {
        Builtin::Ln => x.ln(),
        Builtin::Log => x.log10(),
        Builtin::Sin => x.sin(),
        Builtin::Cos => x.cos(),
        Builtin::Tan => x.tan(),
        Builtin::Asin => x.asin(),
        Builtin::Acos => x.acos(),
        Builtin::Atan => x.atan(),
        Builtin::Sinh => x.sinh(),
        Builtin::Cosh => x.cosh(),
        Builtin::Tanh => x.tanh(),
        Builtin::Asinh => x.asinh(),
        Builtin::Acosh => x.acosh(),
        Builtin::Atanh => x.atanh(),
        Builtin::Sqrt => x.sqrt(),
        Builtin::Cbrt => x.cbrt(),
        Builtin::Floor => x.floor(),
        Builtin::Ceil => x.ceil(),
        Builtin::Round => x.round(),
        Builtin::Abs => x.abs(),
        Builtin::Gcd => unreachable!(),
    }
}

fn run_program(p: &Program) -> f64 {
    let mut st: Vec<f64> = Vec::new();
    for step in &p.steps {
        match step {
            Step::PushLiteral { neg, kind, text } => st.push(literal_value(*neg, *kind, text)),
            Step::PushBits(b) => st.push(f64::from_bits(*b)),
            Step::Apply(op) => {
                let b = st.pop().unwrap();
                let a = st.pop().unwrap();
                st.push(apply_op(*op, a, b));
            }
            Step::ApplyUnary(f) => {
                let x = st.pop().unwrap();
                st.push(apply_unary(*f, x));
            }
            Step::FoldGcd { argc } => {
                let mut vals: Vec<f64> = Vec::new();
                for _ in 0..*argc {
                    vals.push(st.pop().unwrap());
                }
                vals.reverse();
                let mut r = vals[0];
                for v in &vals[1..] {
                    r = gcd_fold(r, *v);
                }
                st.push(r);
            }
            Step::LogNamed { base } => {
                let x = st.pop().unwrap();
                st.push(x.log(base.parse::<f64>().unwrap()));
            }
            Step::LogPair => {
                let b = st.pop().unwrap();
                let a = st.pop().unwrap();
                st.push(a.log(b));
            }
        }
    }
    assert_eq!(st.len(), 1);
    st.pop().unwrap()
}

fn eval_str(src: &str) -> f64 {
    let eval = AstEvaluator::new();
    let statement = maths::parse(src).unwrap();
    run_program(&eval.eval(&statement).unwrap())
}

fn num(text: &str) -> AstStatement {
    AstStatement::Number {
        neg: false,
        kind: NumberKind::Dec,
        text: text.to_string(),
    }
}

fn var(name: &str) -> AstStatement {
    AstStatement::Variable(name.to_string())
}

fn op(o: Operator) -> AstStatement {
    AstStatement::Operator(o)
}

fn fun(name: &str, params: Vec<AstStatement>) -> AstStatement {
    AstStatement::FunctionCall {
        name: name.to_string(),
        params,
    }
}

#[test]
fn infix_to_postfix() {
    let expr = vec![
        var("a"),
        op(Operator::Add),
        var("b"),
        op(Operator::Multiply),
        var("c"),
    ];
    let out = AstEvaluator::infix_to_postfix(&expr);
    assert_eq!(
        out.unwrap(),
        vec![
            var("a"),
            var("b"),
            var("c"),
            op(Operator::Multiply),
            op(Operator::Add),
        ]
    );
}

#[test]
fn eval_infix() {
    let expr = vec![
        var("a"),
        op(Operator::Add),
        var("b"),
        op(Operator::Multiply),
        var("c"),
    ];

    let a = 2.0f64;
    let b = 3.0f64;
    let c = 4.0f64;
    let mut eval = AstEvaluator {
        variable_map: maths::eval::ValueTable::new(),
        known_functions: Vec::new(),
        const_map: maths::eval::ValueTable::new(),
    };
    eval.variable_map
        .insert("a".to_string(), Value { bits: a.to_bits() });
    eval.variable_map
        .insert("b".to_string(), Value { bits: b.to_bits() });
    eval.variable_map
        .insert("c".to_string(), Value { bits: c.to_bits() });

    let program = eval
        .eval(&AstStatement::InfixExpression(expr))
        .unwrap();
    assert_eq!(run_program(&program), a + b * c);
}

#[test]
fn infix_postfix() {
    let eval = AstEvaluator::new();
    // 1 * (2 + 3)
    let statement = vec![
        num("1"),
        op(Operator::Multiply),
        op(Operator::LeftParen),
        num("2"),
        op(Operator::Add),
        num("3"),
        op(Operator::RightParen),
    ];

    let pf = AstEvaluator::infix_to_postfix(&statement).unwrap();
    assert_eq!(
        pf,
        vec![num("1"), num("2"), num("3"), op(Operator::Add), op(Operator::Multiply)]
    );

    let program = eval
        .eval(&AstStatement::InfixExpression(statement))
        .unwrap();
    assert_eq!(run_program(&program), 5.0);
}

#[test]
fn infix_postfix_hard() {
    let eval = AstEvaluator::new();
    // 1 + 2 * ( 3 ** 4 - 5 ) ** ( 6 + 7 * 8 ) - 9
    let statement = vec![
        num("1"),
        op(Operator::Add),
        num("2"),
        op(Operator::Multiply),
        op(Operator::LeftParen),
        num("3"),
        op(Operator::Exponent),
        num("4"),
        op(Operator::Subtract),
        num("5"),
        op(Operator::RightParen),
        op(Operator::Exponent),
        op(Operator::LeftParen),
        num("6"),
        op(Operator::Add),
        num("7"),
        op(Operator::Multiply),
        num("8"),
        op(Operator::RightParen),
        op(Operator::Subtract),
        num("9"),
    ];

    let pf = AstEvaluator::infix_to_postfix(&statement).unwrap();

    // 1 2 3 4 ** 5 - 6 7 8 * + ** * + 9 -
    let expected = vec![
        num("1"),
        num("2"),
        num("3"),
        num("4"),
        op(Operator::Exponent),
        num("5"),
        op(Operator::Subtract),
        num("6"),
        num("7"),
        num("8"),
        op(Operator::Multiply),
        op(Operator::Add),
        op(Operator::Exponent),
        op(Operator::Multiply),
        op(Operator::Add),
        num("9"),
        op(Operator::Subtract),
    ];
    assert_eq!(pf, expected);

    let program = eval
        .eval(&AstStatement::InfixExpression(statement))
        .unwrap();
    assert_eq!(
        run_program(&program),
        1.0 + 2.0 * (3.0f64.powf(4.0) - 5.0).powf(6.0 + 7.0 * 8.0) - 9.0
    );
}

#[test]
fn string_to_ast() {
    let parsed = maths::parse("1 * (2 + 3)").unwrap();

    let expected = AstStatement::InfixExpression(vec![
        num("1"),
        op(Operator::Multiply),
        op(Operator::LeftParen),
        num("2"),
        op(Operator::Add),
        num("3"),
        op(Operator::RightParen),
    ]);

    assert_eq!(parsed, expected);
}

#[test]
fn string_to_ast_hard() {
    let parsed = maths::parse("1 + 2 * ( 3 ** 4 - 5 ) ** ( 6 + 7 * 8 ) - 9").unwrap();

    let expected = AstStatement::InfixExpression(vec![
        num("1"),
        op(Operator::Add),
        num("2"),
        op(Operator::Multiply),
        op(Operator::LeftParen),
        num("3"),
        op(Operator::Exponent),
        num("4"),
        op(Operator::Subtract),
        num("5"),
        op(Operator::RightParen),
        op(Operator::Exponent),
        op(Operator::LeftParen),
        num("6"),
        op(Operator::Add),
        num("7"),
        op(Operator::Multiply),
        num("8"),
        op(Operator::RightParen),
        op(Operator::Subtract),
        num("9"),
    ]);

    assert_eq!(parsed, expected);
}

#[test]
fn functions() {
    let parsed = maths::parse("sin(3 * pi)").unwrap();
    let expected = AstStatement::InfixExpression(vec![fun(
        "sin",
        vec![AstStatement::InfixExpression(vec![
            num("3"),
            op(Operator::Multiply),
            var("pi"),
        ])],
    )]);
    assert_eq!(parsed, expected);
    assert_eq!(eval_str("sin(3 * pi)"), f64::sin(3.0 * std::f64::consts::PI));

    let parsed = maths::parse("round(7 / 3)").unwrap();
    let expected = AstStatement::InfixExpression(vec![fun(
        "round",
        vec![AstStatement::InfixExpression(vec![
            num("7"),
            op(Operator::Divide),
            num("3"),
        ])],
    )]);
    assert_eq!(parsed, expected);
    assert_eq!(eval_str("round(7 / 3)"), f64::round(7.0 / 3.0));

    let parsed = maths::parse("log_7(7 ** 6)").unwrap();
    let expected = AstStatement::InfixExpression(vec![fun(
        "log_7",
        vec![AstStatement::InfixExpression(vec![
            num("7"),
            op(Operator::Exponent),
            num("6"),
        ])],
    )]);
    assert_eq!(parsed, expected);
    assert_eq!(eval_str("log_7(7 ** 6)"), 6.0);

    let parsed = maths::parse("gcd(3, 6, 54)").unwrap();
    let expected = AstStatement::InfixExpression(vec![fun(
        "gcd",
        vec![
            AstStatement::InfixExpression(vec![num("3")]),
            AstStatement::InfixExpression(vec![num("6")]),
            AstStatement::InfixExpression(vec![num("54")]),
        ],
    )]);
    assert_eq!(parsed, expected);
    assert_eq!(eval_str("gcd(3, 6, 54)"), 3.0);
}

#[test]
fn radix_literals() {
    assert_eq!(eval_str("0x1A"), 26.0);
    assert_eq!(eval_str("0b101"), 5.0);
    assert_eq!(eval_str("0b101.101"), 5.625);
    assert_eq!(eval_str("0x1.8"), 1.5);
}

#[test]
fn bitwise_truncation() {
    assert_eq!(eval_str("3 & 6"), 2.0);
    assert_eq!(eval_str("3 ^ 6"), 5.0);
    assert_eq!(eval_str("3 | 6"), 7.0);
    assert_eq!(eval_str("3.9 & 6.2"), 2.0);
}

#[test]
fn gcd_with_zero() {
    assert_eq!(eval_str("gcd(0, 7)"), 7.0);
}

#[test]
fn log_with_base_argument() {
    assert_eq!(eval_str("log_B(8, 2)"), 3.0);
}

#[test]
fn exponent_chain_is_left_associative() {
    // the uniform <= pop rule: 2 ** 3 ** 2 is (2 ** 3) ** 2 = 64,
    // not the conventional right-associative 2 ** (3 ** 2) = 512
    assert_eq!(eval_str("2 ** 3 ** 2"), 64.0);
}

#[test]
fn undeclared_variable_is_named() {
    let eval = AstEvaluator::new();
    let statement = maths::parse("x + 1").unwrap();
    let err = eval.eval(&statement).unwrap_err();
    match &err.kind {
        EvalErrorKind::UndeclaredVariable(name) => assert_eq!(name, "x"),
        other => panic!("unexpected error kind: {:?}", other),
    }
    assert_eq!(
        err.message(),
        "Undeclared variable or constant: 'x'".to_string()
    );
}

#[test]
fn unmatched_grouping_fails() {
    let eval = AstEvaluator::new();

    let statement = maths::parse("(1 + 2").unwrap();
    let err = eval.eval(&statement).unwrap_err();
    assert!(matches!(err.kind, EvalErrorKind::MissingOperand));

    let statement = maths::parse("1 + 2)").unwrap();
    let err = eval.eval(&statement).unwrap_err();
    assert!(matches!(err.kind, EvalErrorKind::UnmatchedParen));
}

#[test]
fn evaluation_is_repeatable() {
    let eval = AstEvaluator::new();
    let statement = maths::parse("sin(3 * pi) + 2 ** 10 / 7").unwrap();
    let first = eval.eval(&statement).unwrap();
    let second = eval.eval(&statement).unwrap();
    assert_eq!(first, second);
    assert_eq!(
        run_program(&first).to_bits(),
        run_program(&second).to_bits()
    );
}

#[test]
fn previous_result_binding_is_read() {
    let mut eval = AstEvaluator::new();
    eval.variable_map
        .insert("_".to_string(), Value { bits: 4.0f64.to_bits() });
    let statement = maths::parse("_ * 2 + 1").unwrap();
    assert_eq!(run_program(&eval.eval(&statement).unwrap()), 9.0);
}

#[test]
fn constants_are_bound() {
    assert_eq!(eval_str("true + false"), 1.0);
    assert_eq!(eval_str("e"), std::f64::consts::E);
    assert!(eval_str("inf").is_infinite());
}

#[test]
fn unknown_function_and_bad_base() {
    let eval = AstEvaluator::new();

    let statement = maths::parse("frobnicate(1)").unwrap();
    let err = eval.eval(&statement).unwrap_err();
    match &err.kind {
        EvalErrorKind::UnknownFunction(name) => assert_eq!(name, "frobnicate"),
        other => panic!("unexpected error kind: {:?}", other),
    }

    let statement = maths::parse("log_zzz(1)").unwrap();
    let err = eval.eval(&statement).unwrap_err();
    match &err.kind {
        EvalErrorKind::InvalidLogBase(base) => assert_eq!(base, "zzz"),
        other => panic!("unexpected error kind: {:?}", other),
    }

    let statement = maths::parse("sin(1, 2)").unwrap();
    let err = eval.eval(&statement).unwrap_err();
    assert!(matches!(err.kind, EvalErrorKind::ArityOne(_)));
    assert_eq!(err.message(), "Expected 1 arg: `sin(x)`".to_string());
}

#[test]
fn negative_literal_folds_into_number() {
    assert_eq!(eval_str("-3"), -3.0);
    assert_eq!(eval_str("2 * -3"), -6.0);
}

#[test]
fn minus_folds_greedily_into_literals() {
    // a `-` directly before a digit folds into the literal, so
    // `3-1` reads as the two operands 3 and -1 and is no expression
    assert_eq!(eval_str("3 - 1"), 2.0);
    let eval = AstEvaluator::new();
    let statement = maths::parse("3-1").unwrap();
    let err = eval.eval(&statement).unwrap_err();
    assert!(matches!(err.kind, EvalErrorKind::InvalidExpression));
}
