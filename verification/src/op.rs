//! The fixed operator table: identities and precedence.

use vstd::prelude::*;

verus! {

/// One of the infix operators, or one of the two parenthesis sentinels.
///
/// The sentinels carry precedence 0 and exist only to bound grouping
/// during the infix-to-postfix conversion; they never denote a
/// computation.
#[derive(Copy, Clone, Debug, PartialEq, Eq, Structural)]
pub enum Operator {
    /// `+`
    Add,
    /// `-`
    Subtract,
    /// `*`
    Multiply,
    /// `/`
    Divide,
    /// `%`
    Modulo,
    /// `^`
    Xor,
    /// `&`
    BitAnd,
    /// `|`
    BitOr,
    /// `**`
    Exponent,
    /// `(`
    LeftParen,
    /// `)`
    RightParen,
}

impl Operator {
    /// The operator's precedence in the fixed total order:
    /// Exponent > Multiply/Divide/Modulo > Add/Subtract > BitAnd > Xor > BitOr,
    /// with the parenthesis sentinels lowest.
    pub open spec fn spec_prec(self) -> i64 {
        match self {
            Operator::Add => 4,
            Operator::Subtract => 4,
            Operator::Multiply => 5,
            Operator::Divide => 5,
            Operator::Modulo => 5,
            Operator::Xor => 2,
            Operator::BitAnd => 3,
            Operator::BitOr => 1,
            Operator::Exponent => 6,
            Operator::LeftParen => 0,
            Operator::RightParen => 0,
        }
    }

    /// Precedence, highest binding first; parenthesis sentinels are 0.
    pub fn prec(&self) -> (p: i64)
        ensures
            p == self.spec_prec(),
    {
        match self {
            Operator::Add => 4,
            Operator::Subtract => 4,
            Operator::Multiply => 5,
            Operator::Divide => 5,
            Operator::Modulo => 5,
            Operator::Xor => 2,
            Operator::BitAnd => 3,
            Operator::BitOr => 1,
            Operator::Exponent => 6,
            Operator::LeftParen => 0,
            Operator::RightParen => 0,
        }
    }

    /// True of the nine operators that denote a computation, false of the
    /// two parenthesis sentinels.
    pub open spec fn spec_is_real(self) -> bool {
        self != Operator::LeftParen && self != Operator::RightParen
    }

    /// Whether this operator denotes a computation (not a parenthesis sentinel).
    pub fn is_real(&self) -> (r: bool)
        ensures
            r == self.spec_is_real(),
    {
        !matches!(self, Operator::LeftParen | Operator::RightParen)
    }

    /// The operator's source text.
    pub fn symbol(&self) -> (s: &'static str)
        ensures
            s@ == self.spec_symbol(),
    {
        proof {
            reveal_strlit("+");
            reveal_strlit("-");
            reveal_strlit("*");
            reveal_strlit("/");
            reveal_strlit("%");
            reveal_strlit("^");
            reveal_strlit("&");
            reveal_strlit("|");
            reveal_strlit("**");
            reveal_strlit("(");
            reveal_strlit(")");
            assert("+"@ =~= seq!['+']);
            assert("-"@ =~= seq!['-']);
            assert("*"@ =~= seq!['*']);
            assert("/"@ =~= seq!['/']);
            assert("%"@ =~= seq!['%']);
            assert("^"@ =~= seq!['^']);
            assert("&"@ =~= seq!['&']);
            assert("|"@ =~= seq!['|']);
            assert("**"@ =~= seq!['*', '*']);
            assert("("@ =~= seq!['(']);
            assert(")"@ =~= seq![')']);
        }
        match self {
            Operator::Add => "+",
            Operator::Subtract => "-",
            Operator::Multiply => "*",
            Operator::Divide => "/",
            Operator::Modulo => "%",
            Operator::Xor => "^",
            Operator::BitAnd => "&",
            Operator::BitOr => "|",
            Operator::Exponent => "**",
            Operator::LeftParen => "(",
            Operator::RightParen => ")",
        }
    }

    /// The characters of the operator's source text.
    pub open spec fn spec_symbol(self) -> Seq<char> {
        match self {
            Operator::Add => seq!['+'],
            Operator::Subtract => seq!['-'],
            Operator::Multiply => seq!['*'],
            Operator::Divide => seq!['/'],
            Operator::Modulo => seq!['%'],
            Operator::Xor => seq!['^'],
            Operator::BitAnd => seq!['&'],
            Operator::BitOr => seq!['|'],
            Operator::Exponent => seq!['*', '*'],
            Operator::LeftParen => seq!['('],
            Operator::RightParen => seq![')'],
        }
    }
}

} // verus!
