//! The expression tree: a flat sequence of operand and operator nodes
//! per grouping level, with function calls holding their own argument
//! subtrees, and the builder that reads it off a token stream.

use vstd::prelude::*;

use crate::error::{ParseError, ParseErrorKind, SpecParseError};
use crate::lexer::{NumberKind, SpecToken, SpecTokenKind, Token, TokenKind};
use crate::op::Operator;

verus! {

/// One node of an expression tree.
#[derive(Debug, PartialEq)]
pub enum AstStatement {
    /// A numeric literal: sign, radix kind, digit text.
    Number { neg: bool, kind: NumberKind, text: String },
    /// A variable or constant reference.
    Variable(String),
    /// A maths expression in infix notation (`a + b`); for evaluation
    /// this gets converted to postfix (`a b +`).
    InfixExpression(Vec<AstStatement>),
    /// An operator, parenthesis sentinels included.
    Operator(Operator),
    /// A call to a built-in function, its arguments unevaluated.
    FunctionCall { name: String, params: Vec<AstStatement> },
}

/// The mathematical shape of an expression node.
#[verifier::ext_equal]
pub enum Node {
    Number { neg: bool, kind: NumberKind, text: Seq<char> },
    Variable(Seq<char>),
    Infix(Seq<Node>),
    Op(Operator),
    Call { name: Seq<char>, params: Seq<Node> },
}

/// The shape of an expression node, text as character sequences and
/// children as sequences of shapes.
pub open spec fn node_of(s: AstStatement) -> Node
    decreases s, 1int,
{
    match s {
        AstStatement::Number { neg, kind, text } => Node::Number { neg, kind, text: text@ },
        AstStatement::Variable(v) => Node::Variable(v@),
        AstStatement::InfixExpression(v) => Node::Infix(nodes_of(v@)),
        AstStatement::Operator(o) => Node::Op(o),
        AstStatement::FunctionCall { name, params } => Node::Call {
            name: name@,
            params: nodes_of(params@),
        },
    }
}

/// The shapes of a sequence of nodes.
pub open spec fn nodes_of(v: Seq<AstStatement>) -> Seq<Node>
    decreases v, 0int,
{
    if v.len() == 0 {
        Seq::empty()
    } else {
        nodes_of(v.drop_last()).push(node_of(v.last()))
    }
}

/// A node sequence has as many shapes as nodes.
pub broadcast proof fn lemma_nodes_of_len(v: Seq<AstStatement>)
    ensures
        (#[trigger] nodes_of(v)).len() == v.len(),
    decreases v.len(),
{
    if v.len() > 0 {
        lemma_nodes_of_len(v.drop_last());
    }
}

/// The shape of the `i`th node is the `i`th shape.
pub broadcast proof fn lemma_nodes_of_index(v: Seq<AstStatement>, i: int)
    requires
        0 <= i < v.len(),
    ensures
        #[trigger] nodes_of(v)[i] == node_of(v[i]),
    decreases v.len(),
{
    lemma_nodes_of_len(v.drop_last());
    if i < v.len() - 1 {
        lemma_nodes_of_index(v.drop_last(), i);
    }
}

impl View for AstStatement {
    type V = Node;

    open spec fn view(&self) -> Node {
        node_of(*self)
    }
}

impl Node {
    /// Whether the node stands for an operand: a number, a variable or
    /// a function call. An infix run is not an operand (it only arises
    /// as a grouping of others), nor is an operator.
    pub open spec fn spec_is_operand(self) -> bool {
        match self {
            Node::Number { .. } => true,
            Node::Variable(_) => true,
            Node::Infix(_) => false,
            Node::Op(_) => false,
            Node::Call { .. } => true,
        }
    }
}

impl AstStatement {
    /// Whether the node stands for an operand of the postfix machine.
    pub fn is_operand(&self) -> (r: bool)
        ensures
            r == self@.spec_is_operand(),
    {
        match self {
            AstStatement::Number { .. } => true,
            AstStatement::Variable(_) => true,
            AstStatement::InfixExpression(_) => false,
            AstStatement::Operator(_) => false,
            AstStatement::FunctionCall { .. } => true,
        }
    }

    /// The operator this node carries.
    pub fn unwrap_operator(&self) -> (op: Operator)
        requires
            self@ is Op,
        ensures
            self@ == Node::Op(op),
    {
        match self {
            AstStatement::Operator(op) => *op,
            _ => unreached(),
        }
    }

    /// A node equal to this one in shape.
    pub fn duplicate(&self) -> (r: Self)
        ensures
            r@ == self@,
        decreases *self,
    {
        match self {
            AstStatement::Number { neg, kind, text } => AstStatement::Number {
                neg: *neg,
                kind: *kind,
                text: text.clone(),
            },
            AstStatement::Variable(v) => AstStatement::Variable(v.clone()),
            AstStatement::InfixExpression(v) => {
                let dup = duplicate_list(v);
                proof {
                    lemma_nodes_of_ext(dup@, v@);
                }
                AstStatement::InfixExpression(dup)
            },
            AstStatement::Operator(o) => AstStatement::Operator(*o),
            AstStatement::FunctionCall { name, params } => {
                let dup = duplicate_list(params);
                proof {
                    lemma_nodes_of_ext(dup@, params@);
                }
                AstStatement::FunctionCall { name: name.clone(), params: dup }
            },
        }
    }
}

/// Two node lists whose members agree in shape agree as wholes.
pub proof fn lemma_nodes_of_ext(a: Seq<AstStatement>, b: Seq<AstStatement>)
    requires
        a.len() == b.len(),
        forall|i: int| 0 <= i < a.len() ==> node_of(#[trigger] a[i]) == node_of(b[i]),
    ensures
        nodes_of(a) == nodes_of(b),
{
    lemma_nodes_of_len(a);
    lemma_nodes_of_len(b);
    assert forall|i: int| 0 <= i < a.len() implies nodes_of(a)[i] == nodes_of(b)[i] by {
        lemma_nodes_of_index(a, i);
        lemma_nodes_of_index(b, i);
    }
    assert(nodes_of(a) =~= nodes_of(b));
}

/// A list of nodes equal to the given one in shape.
fn duplicate_list(v: &Vec<AstStatement>) -> (r: Vec<AstStatement>)
    ensures
        r@.len() == v@.len(),
        forall|i: int| 0 <= i < v@.len() ==> node_of(#[trigger] r@[i]) == node_of(v@[i]),
    decreases v,
{
    let mut out: Vec<AstStatement> = Vec::new();
    let mut k: usize = 0;
    while k < v.len()
        invariant
            k <= v@.len(),
            out@.len() == k,
            forall|i: int| 0 <= i < k ==> node_of(#[trigger] out@[i]) == node_of(v@[i]),
        decreases v@.len() - k,
    {
        out.push(v[k].duplicate());
        k += 1;
    }
    out
}

/// The prefix that announces a literal's radix.
pub open spec fn spec_kind_prefix(kind: NumberKind) -> Seq<char> {
    match kind {
        NumberKind::Dec => Seq::empty(),
        NumberKind::Hex => "0x"@,
        NumberKind::Bin => "0b"@,
    }
}

/// The source text of a node: literals with their sign and radix
/// prefix, infix runs joined with spaces, calls as `name(a, b)`.
pub open spec fn spec_render(n: Node) -> Seq<char>
    decreases n, 1int,
{
    match n {
        Node::Number { neg, kind, text } => (if neg {
            "-"@
        } else {
            Seq::empty()
        }) + spec_kind_prefix(kind) + text,
        Node::Variable(v) => v,
        Node::Infix(xs) => spec_render_list(xs, " "@),
        Node::Op(o) => o.spec_symbol(),
        Node::Call { name, params } => name + "("@ + spec_render_list(params, ", "@) + ")"@,
    }
}

/// The source texts of the nodes of `xs`, joined by `sep`.
pub open spec fn spec_render_list(xs: Seq<Node>, sep: Seq<char>) -> Seq<char>
    decreases xs, 0int,
{
    if xs.len() == 0 {
        Seq::empty()
    } else if xs.len() == 1 {
        spec_render(xs[0])
    } else {
        spec_render_list(xs.drop_last(), sep) + sep + spec_render(xs.last())
    }
}

impl AstStatement {
    /// The node's source text, for diagnostics.
    pub fn to_text(&self) -> (s: String)
        ensures
            s@ == spec_render(self@),
        decreases *self, 1int,
    {
        match self {
            AstStatement::Number { neg, kind, text } => {
                let mut s = String::new();
                if *neg {
                    s.append("-");
                }
                match kind {
                    NumberKind::Dec => {},
                    NumberKind::Hex => s.append("0x"),
                    NumberKind::Bin => s.append("0b"),
                }
                s.append(text.as_str());
                proof {
                    assert(s@ =~= spec_render(self@));
                }
                s
            },
            AstStatement::Variable(v) => v.clone(),
            AstStatement::InfixExpression(v) => {
                let s = render_list(v, " ");
                proof {
                    assert(nodes_of(v@) =~= self@->Infix_0);
                }
                s
            },
            AstStatement::Operator(o) => {
                let mut s = String::new();
                s.append(o.symbol());
                s
            },
            AstStatement::FunctionCall { name, params } => {
                let mut s = name.clone();
                s.append("(");
                let inner = render_list(params, ", ");
                s.append(inner.as_str());
                s.append(")");
                proof {
                    assert(nodes_of(params@) =~= self@->Call_params);
                    assert(s@ =~= spec_render(self@));
                }
                s
            },
        }
    }
}

/// The source texts of a list of nodes, joined by `sep`.
fn render_list(v: &Vec<AstStatement>, sep: &str) -> (s: String)
    ensures
        s@ == spec_render_list(nodes_of(v@), sep@),
    decreases v, 0int,
{
    let ghost ns = nodes_of(v@);
    proof {
        lemma_nodes_of_len(v@);
    }
    let mut s = String::new();
    let mut k: usize = 0;
    while k < v.len()
        invariant
            k <= v@.len(),
            ns == nodes_of(v@),
            ns.len() == v@.len(),
            s@ == spec_render_list(ns.take(k as int), sep@),
        decreases v@.len() - k,
    {
        if k > 0 {
            s.append(sep);
        }
        let piece = v[k].to_text();
        s.append(piece.as_str());
        proof {
            lemma_nodes_of_index(v@, k as int);
            assert(ns.take(k + 1int).drop_last() =~= ns.take(k as int));
            assert(ns.take(k + 1int).last() == ns[k as int]);
            assert(s@ =~= spec_render_list(ns.take(k + 1int), sep@));
        }
        k += 1;
    }
    proof {
        assert(ns.take(v@.len() as int) =~= ns);
    }
    s
}

} // verus!

verus! {

/// The shapes of a token list.
pub open spec fn tok_views(ts: Seq<Token>) -> Seq<SpecToken> {
    ts.map(|i: int, t: Token| t@)
}

/// The tokens `[a, b)` of `ts`, or nothing when the range is not a
/// range of `ts`.
pub open spec fn tok_range(ts: Seq<SpecToken>, a: int, b: int) -> Seq<SpecToken> {
    if 0 <= a <= b <= ts.len() {
        ts.subrange(a, b)
    } else {
        Seq::empty()
    }
}

/// A parse error of kind `k` with no context.
pub open spec fn spec_perr(k: ParseErrorKind) -> SpecParseError {
    SpecParseError { kind: k, context: Seq::empty() }
}

/// Appending one node shape appends its shape.
pub proof fn lemma_nodes_of_push(v: Seq<AstStatement>, x: AstStatement)
    ensures
        nodes_of(v.push(x)) == nodes_of(v).push(node_of(x)),
{
    assert(v.push(x).drop_last() =~= v);
    assert(v.push(x).len() == v.len() + 1);
    assert(v.push(x).last() == x);
}

/// What the expression builder makes of a whole token list.
pub open spec fn spec_build(toks: Seq<SpecToken>) -> Result<Node, SpecParseError>
    decreases toks.len(), toks.len(), 2int,
{
    spec_build_seq(toks, 0, Seq::empty())
}

/// What the expression builder makes of the tokens of `toks` from
/// position `i` on, with the nodes built so far in `acc`: numbers,
/// variables and operators map to nodes one for one; an identifier
/// directly before `(` opens a function call; newlines are skipped;
/// end of input closes the run; a comma, a bracket, the reserved
/// keyword or an unrecognized character is a hard error.
pub open spec fn spec_build_seq(toks: Seq<SpecToken>, i: int, acc: Seq<Node>) -> Result<
    Node,
    SpecParseError,
>
    decreases toks.len(), toks.len() - i, 1int,
{
    if i < 0 || i >= toks.len() {
        Ok(Node::Infix(acc))
    } else {
        match toks[i].kind {
            SpecTokenKind::Number { neg, kind, text } => spec_build_seq(
                toks,
                i + 1,
                acc.push(Node::Number { neg, kind, text }),
            ),
            SpecTokenKind::Ident(name) => {
                if i + 1 < toks.len() && toks[i + 1].kind is LeftParen {
                    match spec_consume_function(toks, i + 2, i + 2, 0, Seq::empty(), name) {
                        Ok(p) => {
                            let raw = if p.1 + 1 > i + 1 {
                                p.1 + 1
                            } else {
                                i + 1
                            };
                            let next = if raw > toks.len() {
                                toks.len() as int
                            } else {
                                raw
                            };
                            spec_build_seq(toks, next, acc.push(p.0))
                        },
                        Err(e) => Err(
                            SpecParseError {
                                kind: e.kind,
                                context: e.context.push("parsing function: "@ + name),
                            },
                        ),
                    }
                } else {
                    spec_build_seq(toks, i + 1, acc.push(Node::Variable(name)))
                }
            },
            SpecTokenKind::Plus => spec_build_seq(toks, i + 1, acc.push(Node::Op(Operator::Add))),
            SpecTokenKind::Minus => spec_build_seq(
                toks,
                i + 1,
                acc.push(Node::Op(Operator::Subtract)),
            ),
            SpecTokenKind::Asterisk => spec_build_seq(
                toks,
                i + 1,
                acc.push(Node::Op(Operator::Multiply)),
            ),
            SpecTokenKind::Slash => spec_build_seq(
                toks,
                i + 1,
                acc.push(Node::Op(Operator::Divide)),
            ),
            SpecTokenKind::Percent => spec_build_seq(
                toks,
                i + 1,
                acc.push(Node::Op(Operator::Modulo)),
            ),
            SpecTokenKind::Exponent => spec_build_seq(
                toks,
                i + 1,
                acc.push(Node::Op(Operator::Exponent)),
            ),
            SpecTokenKind::Carrot => spec_build_seq(toks, i + 1, acc.push(Node::Op(Operator::Xor))),
            SpecTokenKind::Ampersand => spec_build_seq(
                toks,
                i + 1,
                acc.push(Node::Op(Operator::BitAnd)),
            ),
            SpecTokenKind::Pipe => spec_build_seq(toks, i + 1, acc.push(Node::Op(Operator::BitOr))),
            SpecTokenKind::Comma => Err(spec_perr(ParseErrorKind::UnexpectedComma)),
            SpecTokenKind::LeftParen => spec_build_seq(
                toks,
                i + 1,
                acc.push(Node::Op(Operator::LeftParen)),
            ),
            SpecTokenKind::RightParen => spec_build_seq(
                toks,
                i + 1,
                acc.push(Node::Op(Operator::RightParen)),
            ),
            SpecTokenKind::LeftCurlyBracket => Err(spec_perr(ParseErrorKind::UnexpectedLeftCurly)),
            SpecTokenKind::RightCurlyBracket => Err(
                spec_perr(ParseErrorKind::UnexpectedRightCurly),
            ),
            SpecTokenKind::LeftSquareBracket => Err(
                spec_perr(ParseErrorKind::UnexpectedLeftSquare),
            ),
            SpecTokenKind::RightSquareBrace => Err(
                spec_perr(ParseErrorKind::UnexpectedRightSquare),
            ),
            SpecTokenKind::Newline => spec_build_seq(toks, i + 1, acc),
            SpecTokenKind::Let => Err(spec_perr(ParseErrorKind::ReservedKeyword)),
            SpecTokenKind::Eof => Ok(Node::Infix(acc)),
            SpecTokenKind::Invalid => Err(spec_perr(ParseErrorKind::InvalidToken)),
        }
    }
}

/// What reading a function-argument list from position `i` yields: the
/// call node and the position of its closing parenthesis. The current
/// argument began at `start`; `depth` tracks nested parentheses; a
/// comma or the closing parenthesis at depth zero closes the current
/// argument, which is built from exactly the tokens since `start`;
/// end of input before the closing parenthesis is a hard error.
pub open spec fn spec_consume_function(
    toks: Seq<SpecToken>,
    i: int,
    start: int,
    depth: int,
    args: Seq<Node>,
    name: Seq<char>,
) -> Result<(Node, int), SpecParseError>
    decreases toks.len(), toks.len() - i, 0int,
{
    if i < 0 || i >= toks.len() {
        Err(spec_perr(ParseErrorKind::UnterminatedCall))
    } else {
        match toks[i].kind {
            SpecTokenKind::RightParen => {
                if depth == 0 {
                    match spec_build(tok_range(toks, start, i)) {
                        Ok(argn) => Ok((Node::Call { name, params: args.push(argn) }, i)),
                        Err(e) => Err(e),
                    }
                } else {
                    spec_consume_function(toks, i + 1, start, depth - 1, args, name)
                }
            },
            SpecTokenKind::LeftParen => spec_consume_function(
                toks,
                i + 1,
                start,
                depth + 1,
                args,
                name,
            ),
            SpecTokenKind::Comma => {
                if depth == 0 {
                    match spec_build(tok_range(toks, start, i)) {
                        Ok(argn) => spec_consume_function(
                            toks,
                            i + 1,
                            i + 1,
                            0,
                            args.push(argn),
                            name,
                        ),
                        Err(e) => Err(e),
                    }
                } else {
                    spec_consume_function(toks, i + 1, start, depth, args, name)
                }
            },
            SpecTokenKind::Eof => Err(spec_perr(ParseErrorKind::UnterminatedCall)),
            _ => spec_consume_function(toks, i + 1, start, depth, args, name),
        }
    }
}

/// A successful argument-list read ends at its closing parenthesis,
/// which stands at or after the read's start and within the tokens.
pub proof fn lemma_spec_cf_bounds(
    toks: Seq<SpecToken>,
    i: int,
    start: int,
    depth: int,
    args: Seq<Node>,
    name: Seq<char>,
)
    ensures
        match spec_consume_function(toks, i, start, depth, args, name) {
            Ok(p) => i <= p.1 < toks.len(),
            Err(_) => true,
        },
    decreases toks.len() - i,
{
    if 0 <= i < toks.len() {
        match toks[i].kind {
            SpecTokenKind::RightParen => {
                if depth != 0 {
                    lemma_spec_cf_bounds(toks, i + 1, start, depth - 1, args, name);
                }
            },
            SpecTokenKind::LeftParen => {
                lemma_spec_cf_bounds(toks, i + 1, start, depth + 1, args, name);
            },
            SpecTokenKind::Comma => {
                if depth == 0 {
                    match spec_build(tok_range(toks, start, i)) {
                        Ok(argn) => {
                            lemma_spec_cf_bounds(toks, i + 1, i + 1, 0, args.push(argn), name);
                        },
                        Err(_) => {},
                    }
                } else {
                    lemma_spec_cf_bounds(toks, i + 1, start, depth, args, name);
                }
            },
            SpecTokenKind::Eof => {},
            _ => {
                lemma_spec_cf_bounds(toks, i + 1, start, depth, args, name);
            },
        }
    }
}

impl AstStatement {
    /// Build one flat infix run from a token list.
    pub fn infix_expr_from_tokens(tokens: &Vec<Token>) -> (r: Result<AstStatement, ParseError>)
        ensures
            match (r, spec_build(tok_views(tokens@))) {
                (Ok(n), Ok(sn)) => n@ == sn,
                (Err(e), Err(se)) => e@.kind == se.kind && e@.context == se.context,
                _ => false,
            },
        decreases tokens@.len(), tokens@.len(), 3int,
    {
        let ghost tv = tok_views(tokens@);
        let mut stmts: Vec<AstStatement> = Vec::new();
        let mut i: usize = 0;
        proof {
            assert(nodes_of(stmts@) =~= Seq::<Node>::empty());
        }
        while i < tokens.len()
            invariant
                i <= tokens@.len(),
                tv == tok_views(tokens@),
                tv.len() == tokens@.len(),
                spec_build(tv) == spec_build_seq(tv, i as int, nodes_of(stmts@)),
            decreases tokens@.len() - i,
        {
            let ghost ns = nodes_of(stmts@);
            match &tokens[i].kind {
                TokenKind::Number { neg, kind, text } => {
                    let node = AstStatement::Number { neg: *neg, kind: *kind, text: text.clone() };
                    proof {
                        lemma_nodes_of_push(stmts@, node);
                    }
                    stmts.push(node);
                    i += 1;
                },
                TokenKind::Ident(name) => {
                    let is_call = i + 1 < tokens.len() && matches!(
                        &tokens[i + 1].kind,
                        TokenKind::LeftParen
                    );
                    if is_call {
                        match Self::consume_function(name.clone(), tokens, i + 2) {
                            Ok((node, j)) => {
                                proof {
                                    lemma_spec_cf_bounds(
                                        tv,
                                        i + 2 as int,
                                        i + 2 as int,
                                        0,
                                        Seq::empty(),
                                        name@,
                                    );
                                    lemma_nodes_of_push(stmts@, node);
                                }
                                stmts.push(node);
                                i = j + 1;
                            },
                            Err(e) => {
                                let mut line = "parsing function: ".to_owned();
                                line.append(name.as_str());
                                return Err(e.with_context(line));
                            },
                        }
                    } else {
                        let node = AstStatement::Variable(name.clone());
                        proof {
                            lemma_nodes_of_push(stmts@, node);
                        }
                        stmts.push(node);
                        i += 1;
                    }
                },
                TokenKind::Plus => {
                    let node = AstStatement::Operator(Operator::Add);
                    proof {
                        lemma_nodes_of_push(stmts@, node);
                    }
                    stmts.push(node);
                    i += 1;
                },
                TokenKind::Minus => {
                    let node = AstStatement::Operator(Operator::Subtract);
                    proof {
                        lemma_nodes_of_push(stmts@, node);
                    }
                    stmts.push(node);
                    i += 1;
                },
                TokenKind::Asterisk => {
                    let node = AstStatement::Operator(Operator::Multiply);
                    proof {
                        lemma_nodes_of_push(stmts@, node);
                    }
                    stmts.push(node);
                    i += 1;
                },
                TokenKind::Slash => {
                    let node = AstStatement::Operator(Operator::Divide);
                    proof {
                        lemma_nodes_of_push(stmts@, node);
                    }
                    stmts.push(node);
                    i += 1;
                },
                TokenKind::Percent => {
                    let node = AstStatement::Operator(Operator::Modulo);
                    proof {
                        lemma_nodes_of_push(stmts@, node);
                    }
                    stmts.push(node);
                    i += 1;
                },
                TokenKind::Exponent => {
                    let node = AstStatement::Operator(Operator::Exponent);
                    proof {
                        lemma_nodes_of_push(stmts@, node);
                    }
                    stmts.push(node);
                    i += 1;
                },
                TokenKind::Carrot => {
                    let node = AstStatement::Operator(Operator::Xor);
                    proof {
                        lemma_nodes_of_push(stmts@, node);
                    }
                    stmts.push(node);
                    i += 1;
                },
                TokenKind::Ampersand => {
                    let node = AstStatement::Operator(Operator::BitAnd);
                    proof {
                        lemma_nodes_of_push(stmts@, node);
                    }
                    stmts.push(node);
                    i += 1;
                },
                TokenKind::Pipe => {
                    let node = AstStatement::Operator(Operator::BitOr);
                    proof {
                        lemma_nodes_of_push(stmts@, node);
                    }
                    stmts.push(node);
                    i += 1;
                },
                TokenKind::Comma => {
                    return Err(ParseError::new(ParseErrorKind::UnexpectedComma));
                },
                TokenKind::LeftParen => {
                    let node = AstStatement::Operator(Operator::LeftParen);
                    proof {
                        lemma_nodes_of_push(stmts@, node);
                    }
                    stmts.push(node);
                    i += 1;
                },
                TokenKind::RightParen => {
                    let node = AstStatement::Operator(Operator::RightParen);
                    proof {
                        lemma_nodes_of_push(stmts@, node);
                    }
                    stmts.push(node);
                    i += 1;
                },
                TokenKind::LeftCurlyBracket => {
                    return Err(ParseError::new(ParseErrorKind::UnexpectedLeftCurly));
                },
                TokenKind::RightCurlyBracket => {
                    return Err(ParseError::new(ParseErrorKind::UnexpectedRightCurly));
                },
                TokenKind::LeftSquareBracket => {
                    return Err(ParseError::new(ParseErrorKind::UnexpectedLeftSquare));
                },
                TokenKind::RightSquareBrace => {
                    return Err(ParseError::new(ParseErrorKind::UnexpectedRightSquare));
                },
                TokenKind::Newline => {
                    i += 1;
                },
                TokenKind::Let => {
                    return Err(ParseError::new(ParseErrorKind::ReservedKeyword));
                },
                TokenKind::Eof => {
                    return Ok(AstStatement::InfixExpression(stmts));
                },
                TokenKind::Invalid => {
                    return Err(ParseError::new(ParseErrorKind::InvalidToken));
                },
            }
        }
        Ok(AstStatement::InfixExpression(stmts))
    }

    /// Read a function-argument list that begins just inside the
    /// opening parenthesis at `start_i`; returns the completed call
    /// node and the position of the closing parenthesis.
    fn consume_function(ident: String, tokens: &Vec<Token>, start_i: usize) -> (r: Result<
        (AstStatement, usize),
        ParseError,
    >)
        ensures
            match (
                r,
                spec_consume_function(
                    tok_views(tokens@),
                    start_i as int,
                    start_i as int,
                    0,
                    Seq::empty(),
                    ident@,
                ),
            ) {
                (Ok(p), Ok(sp)) => p.0@ == sp.0 && p.1 as int == sp.1,
                (Err(e), Err(se)) => e@.kind == se.kind && e@.context == se.context,
                _ => false,
            },
        decreases tokens@.len(), tokens@.len(), 2int,
    {
        let ghost tv = tok_views(tokens@);
        let mut args: Vec<AstStatement> = Vec::new();
        let mut curr: Vec<Token> = Vec::new();
        let mut depth: u64 = 0;
        let mut idx: usize = start_i;
        let ghost mut astart = start_i as int;
        proof {
            assert(nodes_of(args@) =~= Seq::<Node>::empty());
            assert(tok_views(curr@) =~= tok_range(tv, astart, idx as int));
        }
        while idx < tokens.len()
            invariant
                tv == tok_views(tokens@),
                tv.len() == tokens@.len(),
                start_i as int <= astart <= idx as int,
                depth <= idx,
                tok_views(curr@) == tok_range(tv, astart, idx as int),
                curr@.len() == idx - astart,
                spec_consume_function(tv, start_i as int, start_i as int, 0, Seq::empty(), ident@)
                    == spec_consume_function(
                    tv,
                    idx as int,
                    astart,
                    depth as int,
                    nodes_of(args@),
                    ident@,
                ),
            decreases tokens@.len() - idx,
        {
            let ghost ns = nodes_of(args@);
            let is_rparen_0 = matches!(&tokens[idx].kind, TokenKind::RightParen) && depth == 0;
            let is_comma_0 = matches!(&tokens[idx].kind, TokenKind::Comma) && depth == 0;
            if is_rparen_0 || is_comma_0 {
                proof {
                    assert(tok_views(curr@) =~= tv.subrange(astart, idx as int));
                }
                match Self::infix_expr_from_tokens(&curr) {
                    Ok(argn) => {
                        proof {
                            lemma_nodes_of_push(args@, argn);
                        }
                        args.push(argn);
                        if is_rparen_0 {
                            return Ok(
                                (AstStatement::FunctionCall { name: ident, params: args }, idx),
                            );
                        }
                        curr = Vec::new();
                        proof {
                            astart = idx as int + 1;
                            assert(tok_views(curr@) =~= tok_range(tv, astart, idx + 1 as int));
                        }
                        idx += 1;
                    },
                    Err(e) => {
                        return Err(e);
                    },
                }
            } else {
                match &tokens[idx].kind {
                    TokenKind::RightParen => {
                        depth = depth - 1;
                    },
                    TokenKind::LeftParen => {
                        depth = depth + 1;
                    },
                    TokenKind::Eof => {
                        return Err(ParseError::new(ParseErrorKind::UnterminatedCall));
                    },
                    _ => {},
                }
                let t = tokens[idx].duplicate();
                proof {
                    assert(curr@.push(t).map(|k: int, u: Token| u@) =~= curr@.map(
                        |k: int, u: Token| u@,
                    ).push(t@));
                    assert(tok_views(curr@).push(t@) =~= tok_range(tv, astart, idx + 1 as int));
                }
                curr.push(t);
                idx += 1;
            }
        }
        Err(ParseError::new(ParseErrorKind::UnterminatedCall))
    }
}

} // verus!
