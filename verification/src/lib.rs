//! A small expression calculator: a tokenizer, a flat-token parser, an
//! infix-to-postfix converter, and an evaluator that resolves names,
//! checks structure and arity, and lays the arithmetic out as a linear
//! program of IEEE-754 operations for the host program to execute.
//!
//! The core exposes two operations: [`parse`], a pure function from a
//! line of text to an expression, and [`eval::AstEvaluator::eval`],
//! which reads the environment -- never writes it -- and turns an
//! expression into the arithmetic program whose run gives its value.

pub mod ast;
pub mod cli;
pub mod error;
pub mod eval;
pub mod format;
pub mod functions;
pub mod laws;
pub mod lexer;
pub mod op;
pub mod strutil;

use vstd::prelude::*;

use crate::ast::{spec_build, tok_views, AstStatement, Node};
use crate::error::{ParseError, SpecParseError};
use crate::lexer::{spec_tokens, Lexer};

verus! {

/// What parsing a line of text gives: the token stream read into one
/// flat infix run.
pub open spec fn spec_parse(s: Seq<char>) -> Result<Node, SpecParseError> {
    spec_build(spec_tokens(s))
}

/// Parse a line of text into an expression: a pure function of the
/// text, no shared state read or written.
pub fn parse(line: &str) -> (r: Result<AstStatement, ParseError>)
    requires
        line@.len() + 2 <= usize::MAX,
    ensures
        match (r, spec_parse(line@)) {
            (Ok(n), Ok(sn)) => n@ == sn,
            (Err(e), Err(se)) => e@.kind == se.kind && e@.context == se.context,
            _ => false,
        },
{
    let mut lex = Lexer::new(line);
    let toks = lex.tokens();
    proof {
        assert(tok_views(toks@) =~= toks@.map(|k: int, t: lexer::Token| t@));
    }
    AstStatement::infix_expr_from_tokens(&toks)
}

} // verus!
