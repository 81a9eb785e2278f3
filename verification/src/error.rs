//! The error model: a kind, and an ordered list of context lines
//! appended while the error travels outward, innermost first.

use vstd::prelude::*;

use crate::op::Operator;
use crate::strutil::{push_dec_digits, spec_dec_digits};

verus! {

/// What went wrong while building an expression from tokens.
#[derive(Debug, Copy, Clone, PartialEq, Eq, Structural)]
pub enum ParseErrorKind {
    /// A `,` outside a function-argument list.
    UnexpectedComma,
    /// A `{` anywhere.
    UnexpectedLeftCurly,
    /// A `}` anywhere.
    UnexpectedRightCurly,
    /// A `[` anywhere.
    UnexpectedLeftSquare,
    /// A `]` anywhere.
    UnexpectedRightSquare,
    /// An unrecognized character reached the builder.
    InvalidToken,
    /// A function-argument list with no closing parenthesis.
    UnterminatedCall,
    /// The reserved keyword `let`, which declarations do not support.
    ReservedKeyword,
}

/// An error from the expression builder.
#[derive(Debug, Clone, PartialEq)]
pub struct ParseError {
    pub kind: ParseErrorKind,
    /// Context lines appended during upward propagation, innermost first.
    pub context: Vec<String>,
}

/// The mathematical shape of a parse error.
#[verifier::ext_equal]
pub struct SpecParseError {
    pub kind: ParseErrorKind,
    pub context: Seq<Seq<char>>,
}

impl View for ParseError {
    type V = SpecParseError;

    open spec fn view(&self) -> SpecParseError {
        SpecParseError { kind: self.kind, context: self.context.deep_view() }
    }
}

/// The message of a parse error of kind `k`.
pub open spec fn spec_parse_message(k: ParseErrorKind) -> Seq<char> {
    match k {
        ParseErrorKind::UnexpectedComma => "Unexpected token: ','"@,
        ParseErrorKind::UnexpectedLeftCurly => "Unexpected token: '{'"@,
        ParseErrorKind::UnexpectedRightCurly => "Unexpected token: '}'"@,
        ParseErrorKind::UnexpectedLeftSquare => "Unexpected token: '['"@,
        ParseErrorKind::UnexpectedRightSquare => "Unexpected token: ']'"@,
        ParseErrorKind::InvalidToken => "Found invalid token"@,
        ParseErrorKind::UnterminatedCall => "Expected RightParen, found EOF"@,
        ParseErrorKind::ReservedKeyword => "Reserved keyword `let` is not supported"@,
    }
}

impl ParseError {
    /// An error of kind `k` with no context yet.
    pub fn new(kind: ParseErrorKind) -> (e: Self)
        ensures
            e@.kind == kind,
            e@.context == Seq::<Seq<char>>::empty(),
    {
        let e = ParseError { kind, context: Vec::new() };
        proof {
            assert(e@.context =~= Seq::<Seq<char>>::empty());
        }
        e
    }

    /// The same error with one more context line, outermost last.
    pub fn with_context(self, line: String) -> (e: Self)
        ensures
            e@.kind == self@.kind,
            e@.context == self@.context.push(line@),
    {
        let ghost oldctx = self@.context;
        let ParseError { kind, mut context } = self;
        context.push(line);
        let e = ParseError { kind, context };
        proof {
            assert(e@.context =~= oldctx.push(line@));
        }
        e
    }

    /// The message of the error's kind.
    pub fn message(&self) -> (s: String)
        ensures
            s@ == spec_parse_message(self@.kind),
    {
        match self.kind {
            ParseErrorKind::UnexpectedComma => "Unexpected token: ','".to_owned(),
            ParseErrorKind::UnexpectedLeftCurly => "Unexpected token: '{'".to_owned(),
            ParseErrorKind::UnexpectedRightCurly => "Unexpected token: '}'".to_owned(),
            ParseErrorKind::UnexpectedLeftSquare => "Unexpected token: '['".to_owned(),
            ParseErrorKind::UnexpectedRightSquare => "Unexpected token: ']'".to_owned(),
            ParseErrorKind::InvalidToken => "Found invalid token".to_owned(),
            ParseErrorKind::UnterminatedCall => "Expected RightParen, found EOF".to_owned(),
            ParseErrorKind::ReservedKeyword => "Reserved keyword `let` is not supported".to_owned(),
        }
    }
}

/// What went wrong while evaluating an expression.
#[derive(Debug, Clone, PartialEq)]
pub enum EvalErrorKind {
    /// A name found neither among the constants nor among the variables.
    UndeclaredVariable(String),
    /// A function-call name with no meaning.
    UnknownFunction(String),
    /// A one-argument built-in called with some other argument count.
    ArityOne(String),
    /// A `log_<base>` call whose argument count is not one.
    ArityLog { base: String, found: usize },
    /// A `log_B` call whose argument count is not two.
    ArityLogB { found: usize },
    /// A `gcd` call with no arguments.
    ArityGcd,
    /// A `log_` name whose suffix is neither a decimal number nor `B`.
    InvalidLogBase(String),
    /// An operator in postfix position with fewer than two operands.
    MissingOperand,
    /// A closing parenthesis with no opening one.
    UnmatchedParen,
    /// A postfix run that does not leave exactly one operand.
    InvalidExpression,
    /// A bare operator where an expression was expected.
    OperatorAsExpression(Operator),
    /// A parenthesis sentinel left over in operator position.
    SentinelApplied,
}

/// The mathematical shape of an evaluation error kind.
#[verifier::ext_equal]
pub enum SpecEvalErrorKind {
    UndeclaredVariable(Seq<char>),
    UnknownFunction(Seq<char>),
    ArityOne(Seq<char>),
    ArityLog { base: Seq<char>, found: int },
    ArityLogB { found: int },
    ArityGcd,
    InvalidLogBase(Seq<char>),
    MissingOperand,
    UnmatchedParen,
    InvalidExpression,
    OperatorAsExpression(Operator),
    SentinelApplied,
}

impl View for EvalErrorKind {
    type V = SpecEvalErrorKind;

    open spec fn view(&self) -> SpecEvalErrorKind {
        match self {
            EvalErrorKind::UndeclaredVariable(v) => SpecEvalErrorKind::UndeclaredVariable(v@),
            EvalErrorKind::UnknownFunction(n) => SpecEvalErrorKind::UnknownFunction(n@),
            EvalErrorKind::ArityOne(n) => SpecEvalErrorKind::ArityOne(n@),
            EvalErrorKind::ArityLog { base, found } => SpecEvalErrorKind::ArityLog {
                base: base@,
                found: *found as int,
            },
            EvalErrorKind::ArityLogB { found } => SpecEvalErrorKind::ArityLogB {
                found: *found as int,
            },
            EvalErrorKind::ArityGcd => SpecEvalErrorKind::ArityGcd,
            EvalErrorKind::InvalidLogBase(b) => SpecEvalErrorKind::InvalidLogBase(b@),
            EvalErrorKind::MissingOperand => SpecEvalErrorKind::MissingOperand,
            EvalErrorKind::UnmatchedParen => SpecEvalErrorKind::UnmatchedParen,
            EvalErrorKind::InvalidExpression => SpecEvalErrorKind::InvalidExpression,
            EvalErrorKind::OperatorAsExpression(o) => SpecEvalErrorKind::OperatorAsExpression(*o),
            EvalErrorKind::SentinelApplied => SpecEvalErrorKind::SentinelApplied,
        }
    }
}

/// An error from the evaluator.
#[derive(Debug, Clone, PartialEq)]
pub struct EvalError {
    pub kind: EvalErrorKind,
    /// Context lines appended during upward propagation, innermost first.
    pub context: Vec<String>,
}

/// The mathematical shape of an evaluation error.
#[verifier::ext_equal]
pub struct SpecEvalError {
    pub kind: SpecEvalErrorKind,
    pub context: Seq<Seq<char>>,
}

impl View for EvalError {
    type V = SpecEvalError;

    open spec fn view(&self) -> SpecEvalError {
        SpecEvalError { kind: self.kind@, context: self.context.deep_view() }
    }
}

/// The message of an evaluation error of kind `k`.
pub open spec fn spec_eval_message(k: SpecEvalErrorKind) -> Seq<char> {
    match k {
        SpecEvalErrorKind::UndeclaredVariable(v) => "Undeclared variable or constant: '"@ + v
            + "'"@,
        SpecEvalErrorKind::UnknownFunction(n) => "Unknown function: '"@ + n + "'"@,
        SpecEvalErrorKind::ArityOne(n) => "Expected 1 arg: `"@ + n + "(x)`"@,
        SpecEvalErrorKind::ArityLog { base, found } => "Expected 1 arg, found "@ + spec_dec_digits(
            found as u64,
        ) + ". Usage: `log_"@ + base + "(x)`"@,
        SpecEvalErrorKind::ArityLogB { found } => "Expected 2 args, found "@ + spec_dec_digits(
            found as u64,
        ) + ". Usage: `log_B(x, base)`"@,
        SpecEvalErrorKind::ArityGcd => "Expected at least 1 arg: `gcd(x, ...)`"@,
        SpecEvalErrorKind::InvalidLogBase(b) => "Invalid log base: "@ + b
            + ", specify the base in base10, for example: `log_2(x)`"@,
        SpecEvalErrorKind::MissingOperand => "Missing items from postfix eval stack"@,
        SpecEvalErrorKind::UnmatchedParen => "Expected operator, found EOF"@,
        SpecEvalErrorKind::InvalidExpression => "Invalid expression"@,
        SpecEvalErrorKind::OperatorAsExpression(o) => "Expected expression, found operator '"@
            + o.spec_symbol() + "'"@,
        SpecEvalErrorKind::SentinelApplied => "Unmatched parenthesis"@,
    }
}

impl EvalError {
    /// An error of kind `k` with no context yet.
    pub fn new(kind: EvalErrorKind) -> (e: Self)
        ensures
            e@.kind == kind@,
            e@.context == Seq::<Seq<char>>::empty(),
    {
        let e = EvalError { kind, context: Vec::new() };
        proof {
            assert(e@.context =~= Seq::<Seq<char>>::empty());
        }
        e
    }

    /// The same error with one more context line, outermost last.
    pub fn with_context(self, line: String) -> (e: Self)
        ensures
            e@.kind == self@.kind,
            e@.context == self@.context.push(line@),
    {
        let ghost oldctx = self@.context;
        let EvalError { kind, mut context } = self;
        context.push(line);
        let e = EvalError { kind, context };
        proof {
            assert(e@.context =~= oldctx.push(line@));
        }
        e
    }

    /// The message of the error's kind.
    pub fn message(&self) -> (s: String)
        ensures
            s@ == spec_eval_message(self@.kind),
    {
        match &self.kind {
            EvalErrorKind::UndeclaredVariable(v) => {
                let mut s = "Undeclared variable or constant: '".to_owned();
                s.append(v.as_str());
                s.append("'");
                s
            },
            EvalErrorKind::UnknownFunction(n) => {
                let mut s = "Unknown function: '".to_owned();
                s.append(n.as_str());
                s.append("'");
                s
            },
            EvalErrorKind::ArityOne(n) => {
                let mut s = "Expected 1 arg: `".to_owned();
                s.append(n.as_str());
                s.append("(x)`");
                s
            },
            EvalErrorKind::ArityLog { base, found } => {
                let mut s = "Expected 1 arg, found ".to_owned();
                push_dec_digits(&mut s, *found as u64);
                s.append(". Usage: `log_");
                s.append(base.as_str());
                s.append("(x)`");
                s
            },
            EvalErrorKind::ArityLogB { found } => {
                let mut s = "Expected 2 args, found ".to_owned();
                push_dec_digits(&mut s, *found as u64);
                s.append(". Usage: `log_B(x, base)`");
                s
            },
            EvalErrorKind::ArityGcd => "Expected at least 1 arg: `gcd(x, ...)`".to_owned(),
            EvalErrorKind::InvalidLogBase(b) => {
                let mut s = "Invalid log base: ".to_owned();
                s.append(b.as_str());
                s.append(", specify the base in base10, for example: `log_2(x)`");
                s
            },
            EvalErrorKind::MissingOperand => "Missing items from postfix eval stack".to_owned(),
            EvalErrorKind::UnmatchedParen => "Expected operator, found EOF".to_owned(),
            EvalErrorKind::InvalidExpression => "Invalid expression".to_owned(),
            EvalErrorKind::OperatorAsExpression(o) => {
                let mut s = "Expected expression, found operator '".to_owned();
                s.append(o.symbol());
                s.append("'");
                s
            },
            EvalErrorKind::SentinelApplied => "Unmatched parenthesis".to_owned(),
        }
    }
}

} // verus!
