//! The evaluator: resolves names against the environment, converts
//! each infix run to postfix, checks the stack discipline and the
//! arity of every call, and lays the arithmetic out as a linear
//! program of IEEE-754 operations for the host to execute.
//!
//! Every decision -- which name means what, which error comes first,
//! in what order operands are reduced -- is taken here and verified;
//! what remains for the host is the pure arithmetic.

use vstd::prelude::*;

use crate::ast::{
    lemma_nodes_of_index, lemma_nodes_of_len, lemma_nodes_of_push, node_of, nodes_of, spec_render,
    AstStatement, Node,
};
use crate::error::{EvalError, EvalErrorKind, SpecEvalError, SpecEvalErrorKind};
use crate::functions::{
    default_functions, fnmap_views, is_float_text, lookup, spec_default_functions,
    spec_is_float_text, spec_lookup, Builtin, FnMap,
};
use crate::lexer::NumberKind;
use crate::op::Operator;
use crate::strutil::str_eq;

verus! {

/// A numeric value, held as the bits of its IEEE-754 binary64 form.
#[derive(Debug, Copy, Clone, PartialEq, Eq, Structural)]
pub struct Value {
    pub bits: u64,
}

/// The bits of the circle constant.
pub const PI_BITS: u64 = 0x400921FB54442D18;

/// The bits of Euler's number.
pub const E_BITS: u64 = 0x4005BF0A8B145769;

/// The bits of positive infinity.
pub const INF_BITS: u64 = 0x7FF0000000000000;

/// The bits of one.
pub const ONE_BITS: u64 = 0x3FF0000000000000;

/// The bits of zero.
pub const ZERO_BITS: u64 = 0;

/// A name-to-value table, consulted front to back; inserting puts the
/// new binding in front, so it shadows an older one of the same name.
#[derive(Debug, PartialEq)]
pub struct ValueTable {
    entries: Vec<(String, Value)>,
}

/// The first value bound to `k`, if any.
pub open spec fn spec_assoc(m: Seq<(Seq<char>, Value)>, k: Seq<char>) -> Option<Value>
    decreases m.len(),
{
    if m.len() == 0 {
        None
    } else if m[0].0 == k {
        Some(m[0].1)
    } else {
        spec_assoc(m.drop_first(), k)
    }
}

impl View for ValueTable {
    type V = Seq<(Seq<char>, Value)>;

    closed spec fn view(&self) -> Seq<(Seq<char>, Value)> {
        self.entries@.map(|i: int, p: (String, Value)| (p.0@, p.1))
    }
}

impl ValueTable {
    /// An empty table.
    pub fn new() -> (t: Self)
        ensures
            t@ == Seq::<(Seq<char>, Value)>::empty(),
    {
        let t = ValueTable { entries: Vec::new() };
        proof {
            assert(t@ =~= Seq::<(Seq<char>, Value)>::empty());
        }
        t
    }

    /// Bind `name` to `val`; the new binding shadows any older one.
    pub fn insert(&mut self, name: String, val: Value)
        ensures
            final(self)@ == seq![(name@, val)] + old(self)@,
    {
        let ghost oldv = self@;
        self.entries.insert(0, (name, val));
        proof {
            assert(self@ =~= seq![(self.entries@[0].0@, self.entries@[0].1)] + oldv);
        }
    }

    /// The first value bound to `name`, if any.
    pub fn get(&self, name: &str) -> (r: Option<Value>)
        ensures
            r == spec_assoc(self@, name@),
    {
        let ghost mv = self@;
        proof {
            assert(mv.skip(0) =~= mv);
        }
        let mut k: usize = 0;
        while k < self.entries.len()
            invariant
                k <= self.entries@.len(),
                mv == self@,
                mv.len() == self.entries@.len(),
                spec_assoc(mv, name@) == spec_assoc(mv.skip(k as int), name@),
            decreases self.entries@.len() - k,
        {
            if str_eq(self.entries[k].0.as_str(), name) {
                proof {
                    assert(mv.skip(k as int)[0] == mv[k as int]);
                }
                return Some(self.entries[k].1);
            }
            proof {
                assert(mv.skip(k as int).drop_first() =~= mv.skip(k + 1int));
                assert(mv.skip(k as int)[0] == mv[k as int]);
            }
            k += 1;
        }
        proof {
            assert(mv.skip(k as int).len() == 0);
        }
        None
    }
}

/// The fixed constant table: `pi`, `e`, `inf`, `true` and `false`.
pub open spec fn spec_constants() -> Seq<(Seq<char>, Value)> {
    seq![
        ("pi"@, Value { bits: PI_BITS }),
        ("e"@, Value { bits: E_BITS }),
        ("inf"@, Value { bits: INF_BITS }),
        ("true"@, Value { bits: ONE_BITS }),
        ("false"@, Value { bits: ZERO_BITS }),
    ]
}

/// The evaluator: the constant table, the variable table that outside
/// callers may write between evaluations, and the function registry.
pub struct AstEvaluator {
    pub variable_map: ValueTable,
    pub const_map: ValueTable,
    pub known_functions: FnMap,
}

/// The mathematical shape of an evaluator's environment.
pub struct SpecEvaluator {
    pub vars: Seq<(Seq<char>, Value)>,
    pub consts: Seq<(Seq<char>, Value)>,
    pub funcs: Seq<(Seq<char>, Builtin)>,
}

impl View for AstEvaluator {
    type V = SpecEvaluator;

    open spec fn view(&self) -> SpecEvaluator {
        SpecEvaluator {
            vars: self.variable_map@,
            consts: self.const_map@,
            funcs: fnmap_views(self.known_functions@),
        }
    }
}

/// The value of a constant or variable: the constant table first, the
/// variable table second.
pub open spec fn spec_get_variable(env: SpecEvaluator, name: Seq<char>) -> Option<Value> {
    match spec_assoc(env.consts, name) {
        Some(v) => Some(v),
        None => spec_assoc(env.vars, name),
    }
}

impl AstEvaluator {
    /// A fresh evaluator: the fixed constants, no variables, the
    /// default function registry.
    pub fn new() -> (e: Self)
        ensures
            e@.consts == spec_constants(),
            e@.vars == Seq::<(Seq<char>, Value)>::empty(),
            e@.funcs == spec_default_functions(),
    {
        let mut const_map = ValueTable::new();
        const_map.insert("false".to_owned(), Value { bits: ZERO_BITS });
        const_map.insert("true".to_owned(), Value { bits: ONE_BITS });
        const_map.insert("inf".to_owned(), Value { bits: INF_BITS });
        const_map.insert("e".to_owned(), Value { bits: E_BITS });
        const_map.insert("pi".to_owned(), Value { bits: PI_BITS });
        proof {
            assert(const_map@ =~= spec_constants());
        }
        AstEvaluator {
            variable_map: ValueTable::new(),
            const_map,
            known_functions: default_functions(),
        }
    }

    /// Get the value of a constant or variable (in that order); an
    /// error naming `v` when neither table binds it.
    pub fn get_variable(&self, v: String) -> (r: Result<Value, EvalError>)
        ensures
            match r {
                Ok(val) => spec_get_variable(self@, v@) == Some(val),
                Err(e) => spec_get_variable(self@, v@) is None && e@.kind
                    == SpecEvalErrorKind::UndeclaredVariable(v@) && e@.context == Seq::<
                    Seq<char>,
                >::empty(),
            },
    {
        match self.const_map.get(v.as_str()) {
            Some(val) => Ok(val),
            None => match self.variable_map.get(v.as_str()) {
                Some(val) => Ok(val),
                None => Err(EvalError::new(EvalErrorKind::UndeclaredVariable(v))),
            },
        }
    }
}

/// One instruction of the arithmetic program that evaluation lays out.
/// The host executes them against a stack of binary64 values.
#[derive(Debug, PartialEq)]
pub enum Step {
    /// Push the value the literal's digit text denotes.
    PushLiteral { neg: bool, kind: NumberKind, text: String },
    /// Push the value with the given bits (a constant or a variable).
    PushBits(u64),
    /// Pop `b`, then `a`; push the operator applied as `op(a, b)`.
    Apply(Operator),
    /// Pop one value; push the one-argument built-in applied to it.
    ApplyUnary(Builtin),
    /// Pop `argc` values; push their fold under the Euclidean rule,
    /// first argument first.
    FoldGcd { argc: usize },
    /// Pop one value; push its logarithm in the base whose decimal
    /// text is `base`.
    LogNamed { base: String },
    /// Pop the base, then the argument; push the logarithm.
    LogPair,
}

/// The mathematical shape of one instruction.
#[verifier::ext_equal]
pub enum SpecStep {
    PushLiteral { neg: bool, kind: NumberKind, text: Seq<char> },
    PushBits(u64),
    Apply(Operator),
    ApplyUnary(Builtin),
    FoldGcd { argc: int },
    LogNamed { base: Seq<char> },
    LogPair,
}

impl View for Step {
    type V = SpecStep;

    open spec fn view(&self) -> SpecStep {
        match self {
            Step::PushLiteral { neg, kind, text } => SpecStep::PushLiteral {
                neg: *neg,
                kind: *kind,
                text: text@,
            },
            Step::PushBits(b) => SpecStep::PushBits(*b),
            Step::Apply(o) => SpecStep::Apply(*o),
            Step::ApplyUnary(b) => SpecStep::ApplyUnary(*b),
            Step::FoldGcd { argc } => SpecStep::FoldGcd { argc: *argc as int },
            Step::LogNamed { base } => SpecStep::LogNamed { base: base@ },
            Step::LogPair => SpecStep::LogPair,
        }
    }
}

/// The shapes of an instruction list.
pub open spec fn step_views(v: Seq<Step>) -> Seq<SpecStep> {
    v.map(|i: int, s: Step| s@)
}

/// The arithmetic program that evaluating an expression lays out: its
/// instructions, run in order against an empty stack, leave exactly
/// one value -- the expression's result. That every instruction finds
/// its operands and exactly one value remains is proved in
/// `laws::lemma_program_runs_to_one_value`.
#[derive(Debug, PartialEq)]
pub struct Program {
    pub steps: Vec<Step>,
}

impl View for Program {
    type V = Seq<SpecStep>;

    open spec fn view(&self) -> Seq<SpecStep> {
        step_views(self.steps@)
    }
}

} // verus!

verus! {

/// Pop operators down to the nearest opening parenthesis, emitting
/// each as a node; nothing when no opening parenthesis is on the
/// stack (the top of the stack is the end of the sequence).
pub open spec fn pop_to_lparen(ops: Seq<Operator>) -> Option<(Seq<Node>, Seq<Operator>)>
    decreases ops.len(),
{
    if ops.len() == 0 {
        None
    } else if ops.last() == Operator::LeftParen {
        Some((Seq::empty(), ops.drop_last()))
    } else {
        match pop_to_lparen(ops.drop_last()) {
            None => None,
            Some(p) => Some((seq![Node::Op(ops.last())] + p.0, p.1)),
        }
    }
}

/// Pop and emit the operators whose precedence is at least `p` -- the
/// uniform left-associative rule: an incoming operator pops its equals.
pub open spec fn pop_while_le(ops: Seq<Operator>, p: i64) -> (Seq<Node>, Seq<Operator>)
    decreases ops.len(),
{
    if ops.len() == 0 || p > ops.last().spec_prec() {
        (Seq::empty(), ops)
    } else {
        let q = pop_while_le(ops.drop_last(), p);
        (seq![Node::Op(ops.last())] + q.0, q.1)
    }
}

/// Emit the remaining operators in reverse pop order.
pub open spec fn drain_stack(ops: Seq<Operator>) -> Seq<Node>
    decreases ops.len(),
{
    if ops.len() == 0 {
        Seq::empty()
    } else {
        seq![Node::Op(ops.last())] + drain_stack(ops.drop_last())
    }
}

/// One pass of the shunting-yard over `xs` from position `i`, with
/// output `out` and operator stack `ops` so far: operands go to the
/// output; `(` goes on the stack; `)` pops to the nearest `(` (an
/// error when there is none); any other operator first pops its
/// equals and betters; at the end the stack drains to the output.
pub open spec fn spec_shunt_from(
    xs: Seq<Node>,
    i: int,
    out: Seq<Node>,
    ops: Seq<Operator>,
) -> Result<Seq<Node>, ()>
    decreases xs.len() - i,
{
    if i < 0 || i >= xs.len() {
        Ok(out + drain_stack(ops))
    } else {
        match xs[i] {
            Node::Op(o) => {
                if o == Operator::RightParen {
                    match pop_to_lparen(ops) {
                        None => Err(()),
                        Some(p) => spec_shunt_from(xs, i + 1, out + p.0, p.1),
                    }
                } else if o == Operator::LeftParen {
                    spec_shunt_from(xs, i + 1, out, ops.push(Operator::LeftParen))
                } else {
                    let q = pop_while_le(ops, o.spec_prec());
                    spec_shunt_from(xs, i + 1, out + q.0, q.1.push(o))
                }
            },
            _ => spec_shunt_from(xs, i + 1, out.push(xs[i]), ops),
        }
    }
}

/// What the shunting-yard makes of a whole infix run.
pub open spec fn spec_infix_to_postfix(xs: Seq<Node>) -> Result<Seq<Node>, ()> {
    spec_shunt_from(xs, 0, Seq::empty(), Seq::empty())
}

/// `r` with `em` put before its emitted nodes.
pub open spec fn prepend_emitted(em: Seq<Node>, r: Option<(Seq<Node>, Seq<Operator>)>) -> Option<
    (Seq<Node>, Seq<Operator>),
> {
    match r {
        None => None,
        Some(p) => Some((em + p.0, p.1)),
    }
}

/// Prepending nothing changes nothing.
proof fn lemma_prepend_empty(r: Option<(Seq<Node>, Seq<Operator>)>)
    ensures
        prepend_emitted(Seq::empty(), r) == r,
{
    match r {
        None => {},
        Some(p) => {
            assert(Seq::<Node>::empty() + p.0 =~= p.0);
        },
    }
}

/// Pop operators to the nearest `(`, pushing each onto the output as
/// a node; `false` in the first position when no `(` is on the stack.
#[verifier::loop_isolation(false)]
fn pop_until_lparen(ops: Vec<Operator>, out: Vec<AstStatement>) -> (r: (
    bool,
    Vec<Operator>,
    Vec<AstStatement>,
))
    ensures
        match pop_to_lparen(ops@) {
            None => !r.0,
            Some(p) => r.0 && r.1@ == p.1 && nodes_of(r.2@) == nodes_of(out@) + p.0,
        },
{
    let ghost ops0 = ops@;
    let ghost out0 = nodes_of(out@);
    let mut st = ops;
    let mut acc = out;
    let ghost mut em_acc: Seq<Node> = Seq::empty();
    proof {
        lemma_prepend_empty(pop_to_lparen(st@));
        assert(out0 + em_acc =~= out0);
    }
    while st.len() > 0
        invariant
            nodes_of(acc@) == out0 + em_acc,
            pop_to_lparen(ops0) == prepend_emitted(em_acc, pop_to_lparen(st@)),
        decreases st@.len(),
    {
        let ghost prev = st@;
        let t = match st.pop() {
            Some(t) => t,
            None => unreached(),
        };
        proof {
            assert(prev.drop_last() =~= st@);
        }
        if matches!(t, Operator::LeftParen) {
            proof {
                assert(em_acc + Seq::<Node>::empty() =~= em_acc);
            }
            return (true, st, acc);
        }
        let ghost pout = acc@;
        acc.push(AstStatement::Operator(t));
        proof {
            lemma_nodes_of_push(pout, AstStatement::Operator(t));
            match pop_to_lparen(st@) {
                None => {},
                Some(p) => {
                    assert(em_acc + (seq![Node::Op(t)] + p.0) =~= (em_acc + seq![Node::Op(t)])
                        + p.0);
                },
            }
            em_acc = em_acc + seq![Node::Op(t)];
            assert(out0 + em_acc =~= (out0 + em_acc.drop_last()).push(Node::Op(t)));
        }
    }
    (false, st, acc)
}

} // verus!

verus! {

/// Pop and emit the operators whose precedence is at least `p`.
#[verifier::loop_isolation(false)]
fn pop_ops_while_le(ops: Vec<Operator>, out: Vec<AstStatement>, p: i64) -> (r: (
    Vec<Operator>,
    Vec<AstStatement>,
))
    ensures
        r.0@ == pop_while_le(ops@, p).1,
        nodes_of(r.1@) == nodes_of(out@) + pop_while_le(ops@, p).0,
{
    let ghost ops0 = ops@;
    let ghost out0 = nodes_of(out@);
    let mut st = ops;
    let mut acc = out;
    let ghost mut em_acc: Seq<Node> = Seq::empty();
    proof {
        assert(out0 + em_acc =~= out0);
        assert(em_acc + pop_while_le(st@, p).0 =~= pop_while_le(st@, p).0);
    }
    while st.len() > 0 && p <= st[st.len() - 1].prec()
        invariant
            nodes_of(acc@) == out0 + em_acc,
            pop_while_le(ops0, p).0 == em_acc + pop_while_le(st@, p).0,
            pop_while_le(ops0, p).1 == pop_while_le(st@, p).1,
        decreases st@.len(),
    {
        let ghost prev = st@;
        let t = match st.pop() {
            Some(t) => t,
            None => unreached(),
        };
        proof {
            assert(prev.drop_last() =~= st@);
        }
        let ghost pout = acc@;
        acc.push(AstStatement::Operator(t));
        proof {
            lemma_nodes_of_push(pout, AstStatement::Operator(t));
            assert(em_acc + (seq![Node::Op(t)] + pop_while_le(st@, p).0) =~= (em_acc + seq![
                Node::Op(t),
            ]) + pop_while_le(st@, p).0);
            em_acc = em_acc + seq![Node::Op(t)];
            assert(out0 + em_acc =~= (out0 + em_acc.drop_last()).push(Node::Op(t)));
        }
    }
    proof {
        assert(pop_while_le(st@, p).0 =~= Seq::<Node>::empty());
        assert(em_acc + Seq::<Node>::empty() =~= em_acc);
    }
    (st, acc)
}

/// Empty the operator stack onto the output, top of stack first.
#[verifier::loop_isolation(false)]
fn drain_all(ops: Vec<Operator>, out: Vec<AstStatement>) -> (r: Vec<AstStatement>)
    ensures
        nodes_of(r@) == nodes_of(out@) + drain_stack(ops@),
{
    let ghost ops0 = ops@;
    let ghost out0 = nodes_of(out@);
    let mut st = ops;
    let mut acc = out;
    let ghost mut em_acc: Seq<Node> = Seq::empty();
    proof {
        assert(out0 + em_acc =~= out0);
        assert(em_acc + drain_stack(st@) =~= drain_stack(st@));
    }
    while st.len() > 0
        invariant
            nodes_of(acc@) == out0 + em_acc,
            drain_stack(ops0) == em_acc + drain_stack(st@),
        decreases st@.len(),
    {
        let ghost prev = st@;
        let t = match st.pop() {
            Some(t) => t,
            None => unreached(),
        };
        proof {
            assert(prev.drop_last() =~= st@);
        }
        let ghost pout = acc@;
        acc.push(AstStatement::Operator(t));
        proof {
            lemma_nodes_of_push(pout, AstStatement::Operator(t));
            assert(em_acc + (seq![Node::Op(t)] + drain_stack(st@)) =~= (em_acc + seq![
                Node::Op(t),
            ]) + drain_stack(st@));
            em_acc = em_acc + seq![Node::Op(t)];
            assert(out0 + em_acc =~= (out0 + em_acc.drop_last()).push(Node::Op(t)));
        }
    }
    proof {
        assert(em_acc + Seq::<Node>::empty() =~= em_acc);
    }
    acc
}

impl AstEvaluator {
    /// Convert an infix expression into postfix notation in order to
    /// evaluate it more easily. The uniform pop rule (`<=` on
    /// precedence) makes every operator left-associative, the
    /// exponent included.
    #[verifier::loop_isolation(false)]
    pub fn infix_to_postfix(expr: &Vec<AstStatement>) -> (r: Result<Vec<AstStatement>, EvalError>)
        ensures
            match (r, spec_infix_to_postfix(nodes_of(expr@))) {
                (Ok(v), Ok(sv)) => nodes_of(v@) == sv,
                (Err(e), Err(se)) => e@.kind == SpecEvalErrorKind::UnmatchedParen && e@.context
                    == Seq::<Seq<char>>::empty(),
                _ => false,
            },
    {
        let ghost xs = nodes_of(expr@);
        proof {
            lemma_nodes_of_len(expr@);
        }
        let mut out: Vec<AstStatement> = Vec::new();
        let mut ops: Vec<Operator> = Vec::new();
        let mut i: usize = 0;
        proof {
            assert(nodes_of(out@) =~= Seq::<Node>::empty());
            assert(ops@ =~= Seq::<Operator>::empty());
        }
        while i < expr.len()
            invariant
                i <= expr@.len(),
                spec_infix_to_postfix(xs) == spec_shunt_from(xs, i as int, nodes_of(out@), ops@),
            decreases expr@.len() - i,
        {
            proof {
                lemma_nodes_of_index(expr@, i as int);
            }
            let is_op = matches!(&expr[i], AstStatement::Operator(_));
            if is_op {
                let o = expr[i].unwrap_operator();
                if matches!(o, Operator::RightParen) {
                    let (ok, ops2, out2) = pop_until_lparen(ops, out);
                    ops = ops2;
                    out = out2;
                    if !ok {
                        return Err(EvalError::new(EvalErrorKind::UnmatchedParen));
                    }
                } else if matches!(o, Operator::LeftParen) {
                    ops.push(Operator::LeftParen);
                } else {
                    let prec = o.prec();
                    let (ops2, out2) = pop_ops_while_le(ops, out, prec);
                    ops = ops2;
                    out = out2;
                    ops.push(o);
                }
            } else {
                let dup = expr[i].duplicate();
                proof {
                    lemma_nodes_of_push(out@, dup);
                }
                out.push(dup);
            }
            i += 1;
        }
        let out = drain_all(ops, out);
        Ok(out)
    }
}

} // verus!

verus! {

/// An evaluation error with no context yet.
pub open spec fn plain_err(k: SpecEvalErrorKind) -> SpecEvalError {
    SpecEvalError { kind: k, context: Seq::empty() }
}

/// `e` with one more context line.
pub open spec fn ctx_err(e: SpecEvalError, line: Seq<char>) -> SpecEvalError {
    SpecEvalError { kind: e.kind, context: e.context.push(line) }
}

/// One element of an infix run with its operands already laid out: an
/// operator, or an operand with its source text and the program
/// fragment (or error) that evaluating it gives.
#[verifier::ext_equal]
pub enum SpecCItem {
    Op(Operator),
    Raw { text: Seq<char>, code: Result<Seq<SpecStep>, SpecEvalError> },
}

/// Pop operators down to the nearest opening parenthesis, as items.
pub open spec fn it_pop_to_lparen(ops: Seq<Operator>) -> Option<(Seq<SpecCItem>, Seq<Operator>)>
    decreases ops.len(),
{
    if ops.len() == 0 {
        None
    } else if ops.last() == Operator::LeftParen {
        Some((Seq::empty(), ops.drop_last()))
    } else {
        match it_pop_to_lparen(ops.drop_last()) {
            None => None,
            Some(p) => Some((seq![SpecCItem::Op(ops.last())] + p.0, p.1)),
        }
    }
}

/// Pop and emit the operators whose precedence is at least `p`, as
/// items.
pub open spec fn it_pop_while_le(ops: Seq<Operator>, p: i64) -> (Seq<SpecCItem>, Seq<Operator>)
    decreases ops.len(),
{
    if ops.len() == 0 || p > ops.last().spec_prec() {
        (Seq::empty(), ops)
    } else {
        let q = it_pop_while_le(ops.drop_last(), p);
        (seq![SpecCItem::Op(ops.last())] + q.0, q.1)
    }
}

/// Emit the remaining operators in reverse pop order, as items.
pub open spec fn it_drain(ops: Seq<Operator>) -> Seq<SpecCItem>
    decreases ops.len(),
{
    if ops.len() == 0 {
        Seq::empty()
    } else {
        seq![SpecCItem::Op(ops.last())] + it_drain(ops.drop_last())
    }
}

/// The shunting-yard over laid-out items, the same pass as over nodes.
pub open spec fn spec_shunt_items(
    items: Seq<SpecCItem>,
    i: int,
    out: Seq<SpecCItem>,
    ops: Seq<Operator>,
) -> Result<Seq<SpecCItem>, ()>
    decreases items.len() - i,
{
    if i < 0 || i >= items.len() {
        Ok(out + it_drain(ops))
    } else {
        match items[i] {
            SpecCItem::Op(o) => {
                if o == Operator::RightParen {
                    match it_pop_to_lparen(ops) {
                        None => Err(()),
                        Some(p) => spec_shunt_items(items, i + 1, out + p.0, p.1),
                    }
                } else if o == Operator::LeftParen {
                    spec_shunt_items(items, i + 1, out, ops.push(Operator::LeftParen))
                } else {
                    let q = it_pop_while_le(ops, o.spec_prec());
                    spec_shunt_items(items, i + 1, out + q.0, q.1.push(o))
                }
            },
            _ => spec_shunt_items(items, i + 1, out.push(items[i]), ops),
        }
    }
}

/// The postfix ordering of a laid-out infix run.
pub open spec fn spec_items_postfix(items: Seq<SpecCItem>) -> Result<Seq<SpecCItem>, ()> {
    spec_shunt_items(items, 0, Seq::empty(), Seq::empty())
}

/// One entry of the postfix machine's stack: an operand still as laid
/// out, or the program of an operator application already reduced.
#[verifier::ext_equal]
pub enum SpecWItem {
    Raw { text: Seq<char>, code: Result<Seq<SpecStep>, SpecEvalError> },
    Done(Seq<SpecStep>),
}

/// Reduce one stack entry to its program when an operator consumes
/// it; an operand that failed to lay out reports its error with the
/// postfix-position context line.
pub open spec fn spec_force(w: SpecWItem) -> Result<Seq<SpecStep>, SpecEvalError> {
    match w {
        SpecWItem::Done(f) => Ok(f),
        SpecWItem::Raw { text, code } => match code {
            Ok(f) => Ok(f),
            Err(e) => Err(ctx_err(e, "Evaluating postfix expression: '"@ + text + "'"@)),
        },
    }
}

/// Reduce the one remaining stack entry to the whole run's program;
/// here an operand's own error passes unchanged.
pub open spec fn spec_force_final(w: SpecWItem) -> Result<Seq<SpecStep>, SpecEvalError> {
    match w {
        SpecWItem::Done(f) => Ok(f),
        SpecWItem::Raw { text, code } => code,
    }
}

/// The postfix machine over laid-out items: operands push themselves;
/// an operator pops `b` then `a`, reduces `a` then `b`, and pushes
/// the program for `op(a, b)`; fewer than two entries is a hard
/// error, as is a parenthesis sentinel in operator position; at the
/// end exactly one entry must remain, and it reduces to the result.
pub open spec fn spec_walk(
    pf: Seq<SpecCItem>,
    i: int,
    stack: Seq<SpecWItem>,
) -> Result<Seq<SpecStep>, SpecEvalError>
    decreases pf.len() - i,
{
    if i < 0 || i >= pf.len() {
        if stack.len() == 1 {
            spec_force_final(stack[0])
        } else {
            Err(plain_err(SpecEvalErrorKind::InvalidExpression))
        }
    } else {
        match pf[i] {
            SpecCItem::Raw { text, code } => spec_walk(
                pf,
                i + 1,
                stack.push(SpecWItem::Raw { text, code }),
            ),
            SpecCItem::Op(o) => {
                if stack.len() < 2 {
                    Err(plain_err(SpecEvalErrorKind::MissingOperand))
                } else {
                    let b = stack.last();
                    let a = stack[stack.len() - 2];
                    match spec_force(a) {
                        Err(e) => Err(e),
                        Ok(ca) => match spec_force(b) {
                            Err(e) => Err(e),
                            Ok(cb) => {
                                if !o.spec_is_real() {
                                    Err(plain_err(SpecEvalErrorKind::SentinelApplied))
                                } else {
                                    spec_walk(
                                        pf,
                                        i + 1,
                                        stack.drop_last().drop_last().push(
                                            SpecWItem::Done(
                                                ca + cb + seq![SpecStep::Apply(o)],
                                            ),
                                        ),
                                    )
                                }
                            },
                        },
                    }
                }
            },
        }
    }
}

/// What evaluating an expression node lays out: one instruction for a
/// literal; the bound value for a name, or the undeclared-name error;
/// for an infix run, the postfix conversion and the postfix machine;
/// for a call, the dispatch on its name; a bare operator is a hard
/// error. Errors pick up the enclosing expression's textual form on
/// the way out.
pub open spec fn spec_compile(env: SpecEvaluator, n: Node) -> Result<Seq<SpecStep>, SpecEvalError>
    decreases n, 0int,
{
    match n {
        Node::Number { neg, kind, text } => Ok(seq![SpecStep::PushLiteral { neg, kind, text }]),
        Node::Variable(v) => match spec_get_variable(env, v) {
            Some(val) => Ok(seq![SpecStep::PushBits(val.bits)]),
            None => Err(plain_err(SpecEvalErrorKind::UndeclaredVariable(v))),
        },
        Node::Infix(xs) => match spec_eval_infix(env, xs) {
            Ok(f) => Ok(f),
            Err(e) => Err(ctx_err(e, "Evaluating expression: '"@ + spec_render(n) + "'"@)),
        },
        Node::Op(o) => Err(plain_err(SpecEvalErrorKind::OperatorAsExpression(o))),
        Node::Call { name, params } => match spec_compile_call(env, name, params) {
            Ok(f) => Ok(f),
            Err(e) => Err(ctx_err(e, "Evaluating function: '"@ + spec_render(n) + "'"@)),
        },
    }
}

/// An operand laid out beside its source text; an operator kept as is.
pub open spec fn spec_item_of(env: SpecEvaluator, n: Node) -> SpecCItem
    decreases n, 1int,
{
    match n {
        Node::Op(o) => SpecCItem::Op(o),
        _ => SpecCItem::Raw { text: spec_render(n), code: spec_compile(env, n) },
    }
}

/// The items of an infix run, each operand laid out.
pub open spec fn spec_compile_operands(env: SpecEvaluator, xs: Seq<Node>) -> Seq<SpecCItem>
    decreases xs, 1int,
{
    if xs.len() == 0 {
        Seq::empty()
    } else {
        spec_compile_operands(env, xs.drop_last()).push(spec_item_of(env, xs.last()))
    }
}

/// What evaluating one infix run lays out: operands first, then the
/// postfix conversion (an unmatched closing parenthesis is an error
/// with the conversion context line), then the postfix machine.
pub open spec fn spec_eval_infix(env: SpecEvaluator, xs: Seq<Node>) -> Result<
    Seq<SpecStep>,
    SpecEvalError,
>
    decreases xs, 2int,
{
    match spec_items_postfix(spec_compile_operands(env, xs)) {
        Err(_) => Err(
            ctx_err(
                plain_err(SpecEvalErrorKind::UnmatchedParen),
                "Converting infix expression to postfix"@,
            ),
        ),
        Ok(pf) => spec_walk(pf, 0, Seq::empty()),
    }
}

/// The programs of the call's arguments from position `k` on, laid
/// out strictly in order; the first argument that fails decides.
pub open spec fn spec_compile_args(env: SpecEvaluator, params: Seq<Node>, k: int) -> Result<
    Seq<SpecStep>,
    SpecEvalError,
>
    decreases params, params.len() - k,
{
    if k < 0 || k >= params.len() {
        Ok(Seq::empty())
    } else {
        match spec_compile(env, params[k]) {
            Err(e) => Err(e),
            Ok(ca) => match spec_compile_args(env, params, k + 1) {
                Err(e) => Err(e),
                Ok(rest) => Ok(ca + rest),
            },
        }
    }
}

/// What a function call lays out. The registry is consulted first: a
/// one-argument built-in demands exactly one argument; `gcd` at least
/// one. Failing the registry, a `log_` name splits once on `_`: a
/// decimal-number suffix is the base and demands one argument; the
/// suffix `B` demands two, the base evaluated second; any other
/// suffix is an invalid base. Anything else is an unknown function.
/// Errors out of a registry function carry its context line.
pub open spec fn spec_compile_call(
    env: SpecEvaluator,
    name: Seq<char>,
    params: Seq<Node>,
) -> Result<Seq<SpecStep>, SpecEvalError>
    decreases params, 3 + params.len(),
{
    let fnctx = "When evaluating function '"@ + name + "'"@;
    match spec_lookup(env.funcs, name) {
        Some(b) => {
            if b == Builtin::Gcd {
                if params.len() < 1 {
                    Err(ctx_err(plain_err(SpecEvalErrorKind::ArityGcd), fnctx))
                } else {
                    match spec_compile_args(env, params, 0) {
                        Err(e) => Err(ctx_err(e, fnctx)),
                        Ok(code) => Ok(
                            code.push(SpecStep::FoldGcd { argc: params.len() as int }),
                        ),
                    }
                }
            } else {
                if params.len() != 1 {
                    Err(ctx_err(plain_err(SpecEvalErrorKind::ArityOne(name)), fnctx))
                } else {
                    match spec_compile(env, params[0]) {
                        Err(e) => Err(ctx_err(e, fnctx)),
                        Ok(ca) => Ok(ca.push(SpecStep::ApplyUnary(b))),
                    }
                }
            }
        },
        None => {
            if name.len() >= 4 && name.subrange(0, 4) == "log_"@ {
                let suffix = name.skip(4);
                if spec_is_float_text(suffix) {
                    if params.len() != 1 {
                        Err(
                            plain_err(
                                SpecEvalErrorKind::ArityLog {
                                    base: suffix,
                                    found: params.len() as int,
                                },
                            ),
                        )
                    } else {
                        match spec_compile(env, params[0]) {
                            Err(e) => Err(e),
                            Ok(ca) => Ok(ca.push(SpecStep::LogNamed { base: suffix })),
                        }
                    }
                } else if suffix == "B"@ {
                    if params.len() != 2 {
                        Err(
                            plain_err(
                                SpecEvalErrorKind::ArityLogB { found: params.len() as int },
                            ),
                        )
                    } else {
                        match spec_compile(env, params[0]) {
                            Err(e) => Err(e),
                            Ok(ca) => match spec_compile(env, params[1]) {
                                Err(e) => Err(e),
                                Ok(cb) => Ok(ca + cb + seq![SpecStep::LogPair]),
                            },
                        }
                    }
                } else {
                    Err(plain_err(SpecEvalErrorKind::InvalidLogBase(suffix)))
                }
            } else {
                Err(plain_err(SpecEvalErrorKind::UnknownFunction(name)))
            }
        },
    }
}

} // verus!

verus! {

/// One element of a laid-out infix run, as the evaluator builds it.
#[derive(Debug)]
pub enum CItem {
    Op(Operator),
    Raw { text: String, code: Result<Vec<Step>, EvalError> },
}

impl View for CItem {
    type V = SpecCItem;

    open spec fn view(&self) -> SpecCItem {
        match self {
            CItem::Op(o) => SpecCItem::Op(*o),
            CItem::Raw { text, code } => SpecCItem::Raw {
                text: text@,
                code: match code {
                    Ok(f) => Ok(step_views(f@)),
                    Err(e) => Err(e@),
                },
            },
        }
    }
}

/// The shapes of a laid-out item list.
pub open spec fn cviews(v: Seq<CItem>) -> Seq<SpecCItem> {
    v.map(|i: int, c: CItem| c@)
}

/// One entry of the postfix machine's stack, as the evaluator holds it.
#[derive(Debug)]
pub enum WItem {
    Raw { text: String, code: Result<Vec<Step>, EvalError> },
    Done(Vec<Step>),
}

impl View for WItem {
    type V = SpecWItem;

    open spec fn view(&self) -> SpecWItem {
        match self {
            WItem::Raw { text, code } => SpecWItem::Raw {
                text: text@,
                code: match code {
                    Ok(f) => Ok(step_views(f@)),
                    Err(e) => Err(e@),
                },
            },
            WItem::Done(f) => SpecWItem::Done(step_views(f@)),
        }
    }
}

/// The shapes of a machine stack.
pub open spec fn wviews(v: Seq<WItem>) -> Seq<SpecWItem> {
    v.map(|i: int, w: WItem| w@)
}

/// `r` with `em` put before its emitted items.
pub open spec fn it_prepend(em: Seq<SpecCItem>, r: Option<(Seq<SpecCItem>, Seq<Operator>)>) -> Option<
    (Seq<SpecCItem>, Seq<Operator>),
> {
    match r {
        None => None,
        Some(p) => Some((em + p.0, p.1)),
    }
}

/// Pop operators to the nearest `(`, emitting items.
#[verifier::loop_isolation(false)]
fn it_pop_until_lparen(ops: Vec<Operator>, out: Vec<CItem>) -> (r: (bool, Vec<Operator>, Vec<CItem>))
    ensures
        match it_pop_to_lparen(ops@) {
            None => !r.0,
            Some(p) => r.0 && r.1@ == p.1 && cviews(r.2@) == cviews(out@) + p.0,
        },
{
    let ghost out0 = cviews(out@);
    let mut st = ops;
    let mut acc = out;
    let ghost mut em_acc: Seq<SpecCItem> = Seq::empty();
    proof {
        match it_pop_to_lparen(st@) {
            None => {},
            Some(p) => {
                assert(Seq::<SpecCItem>::empty() + p.0 =~= p.0);
            },
        }
        assert(out0 + em_acc =~= out0);
    }
    while st.len() > 0
        invariant
            cviews(acc@) == out0 + em_acc,
            it_pop_to_lparen(ops@) == it_prepend(em_acc, it_pop_to_lparen(st@)),
        decreases st@.len(),
    {
        let ghost prev = st@;
        let t = match st.pop() {
            Some(t) => t,
            None => unreached(),
        };
        proof {
            assert(prev.drop_last() =~= st@);
        }
        if matches!(t, Operator::LeftParen) {
            proof {
                assert(em_acc + Seq::<SpecCItem>::empty() =~= em_acc);
            }
            return (true, st, acc);
        }
        let ghost pacc = acc@;
        acc.push(CItem::Op(t));
        proof {
            assert(cviews(pacc.push(CItem::Op(t))) =~= cviews(pacc).push(SpecCItem::Op(t)));
            match it_pop_to_lparen(st@) {
                None => {},
                Some(p) => {
                    assert(em_acc + (seq![SpecCItem::Op(t)] + p.0) =~= (em_acc + seq![
                        SpecCItem::Op(t),
                    ]) + p.0);
                },
            }
            em_acc = em_acc + seq![SpecCItem::Op(t)];
            assert(out0 + em_acc =~= (out0 + em_acc.drop_last()).push(SpecCItem::Op(t)));
        }
    }
    (false, st, acc)
}

/// Pop and emit the operators whose precedence is at least `p`, as items.
#[verifier::loop_isolation(false)]
fn it_pop_ops_while_le(ops: Vec<Operator>, out: Vec<CItem>, p: i64) -> (r: (
    Vec<Operator>,
    Vec<CItem>,
))
    ensures
        r.0@ == it_pop_while_le(ops@, p).1,
        cviews(r.1@) == cviews(out@) + it_pop_while_le(ops@, p).0,
{
    let ghost ops0 = ops@;
    let ghost out0 = cviews(out@);
    let mut st = ops;
    let mut acc = out;
    let ghost mut em_acc: Seq<SpecCItem> = Seq::empty();
    proof {
        assert(out0 + em_acc =~= out0);
        assert(em_acc + it_pop_while_le(st@, p).0 =~= it_pop_while_le(st@, p).0);
    }
    while st.len() > 0 && p <= st[st.len() - 1].prec()
        invariant
            cviews(acc@) == out0 + em_acc,
            it_pop_while_le(ops0, p).0 == em_acc + it_pop_while_le(st@, p).0,
            it_pop_while_le(ops0, p).1 == it_pop_while_le(st@, p).1,
        decreases st@.len(),
    {
        let ghost prev = st@;
        let t = match st.pop() {
            Some(t) => t,
            None => unreached(),
        };
        proof {
            assert(prev.drop_last() =~= st@);
        }
        let ghost pacc = acc@;
        acc.push(CItem::Op(t));
        proof {
            assert(cviews(pacc.push(CItem::Op(t))) =~= cviews(pacc).push(SpecCItem::Op(t)));
            assert(em_acc + (seq![SpecCItem::Op(t)] + it_pop_while_le(st@, p).0) =~= (em_acc + seq![
                SpecCItem::Op(t),
            ]) + it_pop_while_le(st@, p).0);
            em_acc = em_acc + seq![SpecCItem::Op(t)];
            assert(out0 + em_acc =~= (out0 + em_acc.drop_last()).push(SpecCItem::Op(t)));
        }
    }
    proof {
        assert(it_pop_while_le(st@, p).0 =~= Seq::<SpecCItem>::empty());
        assert(em_acc + Seq::<SpecCItem>::empty() =~= em_acc);
    }
    (st, acc)
}

/// Empty the operator stack onto the output, as items.
#[verifier::loop_isolation(false)]
fn it_drain_all(ops: Vec<Operator>, out: Vec<CItem>) -> (r: Vec<CItem>)
    ensures
        cviews(r@) == cviews(out@) + it_drain(ops@),
{
    let ghost ops0 = ops@;
    let ghost out0 = cviews(out@);
    let mut st = ops;
    let mut acc = out;
    let ghost mut em_acc: Seq<SpecCItem> = Seq::empty();
    proof {
        assert(out0 + em_acc =~= out0);
        assert(em_acc + it_drain(st@) =~= it_drain(st@));
    }
    while st.len() > 0
        invariant
            cviews(acc@) == out0 + em_acc,
            it_drain(ops0) == em_acc + it_drain(st@),
        decreases st@.len(),
    {
        let ghost prev = st@;
        let t = match st.pop() {
            Some(t) => t,
            None => unreached(),
        };
        proof {
            assert(prev.drop_last() =~= st@);
        }
        let ghost pacc = acc@;
        acc.push(CItem::Op(t));
        proof {
            assert(cviews(pacc.push(CItem::Op(t))) =~= cviews(pacc).push(SpecCItem::Op(t)));
            assert(em_acc + (seq![SpecCItem::Op(t)] + it_drain(st@)) =~= (em_acc + seq![
                SpecCItem::Op(t),
            ]) + it_drain(st@));
            em_acc = em_acc + seq![SpecCItem::Op(t)];
            assert(out0 + em_acc =~= (out0 + em_acc.drop_last()).push(SpecCItem::Op(t)));
        }
    }
    proof {
        assert(em_acc + Seq::<SpecCItem>::empty() =~= em_acc);
    }
    acc
}

/// The shunting-yard over laid-out items.
#[verifier::loop_isolation(false)]
fn shunt_items(items: Vec<CItem>) -> (r: Result<Vec<CItem>, EvalError>)
    ensures
        match (r, spec_items_postfix(cviews(items@))) {
            (Ok(v), Ok(sv)) => cviews(v@) == sv,
            (Err(e), Err(se)) => e@.kind == SpecEvalErrorKind::UnmatchedParen && e@.context
                == Seq::<Seq<char>>::empty(),
            _ => false,
        },
{
    let ghost iv = cviews(items@);
    let mut rest = items;
    let mut out: Vec<CItem> = Vec::new();
    let mut ops: Vec<Operator> = Vec::new();
    let ghost mut i: int = 0;
    proof {
        assert(cviews(out@) =~= Seq::<SpecCItem>::empty());
        assert(ops@ =~= Seq::<Operator>::empty());
    }
    while rest.len() > 0
        invariant
            0 <= i,
            i + rest@.len() == iv.len(),
            forall|j: int| 0 <= j < rest@.len() ==> (#[trigger] rest@[j])@ == iv[i + j],
            spec_items_postfix(iv) == spec_shunt_items(iv, i, cviews(out@), ops@),
        decreases rest@.len(),
    {
        let ghost prevrest = rest@;
        let it = rest.remove(0);
        proof {
            assert(rest@ =~= prevrest.remove(0));
            assert(it@ == iv[i]);
        }
        let is_op = matches!(&it, CItem::Op(_));
        if is_op {
            let o = match &it {
                CItem::Op(o) => *o,
                _ => unreached(),
            };
            if matches!(o, Operator::RightParen) {
                let (ok, ops2, out2) = it_pop_until_lparen(ops, out);
                ops = ops2;
                out = out2;
                if !ok {
                    return Err(EvalError::new(EvalErrorKind::UnmatchedParen));
                }
            } else if matches!(o, Operator::LeftParen) {
                ops.push(Operator::LeftParen);
            } else {
                let prec = o.prec();
                let (ops2, out2) = it_pop_ops_while_le(ops, out, prec);
                ops = ops2;
                out = out2;
                ops.push(o);
            }
        } else {
            let ghost pout = out@;
            out.push(it);
            proof {
                assert(cviews(out@) =~= cviews(pout).push(iv[i]));
            }
        }
        proof {
            i = i + 1;
        }
    }
    let out = it_drain_all(ops, out);
    Ok(out)
}

/// Reduce one stack entry when an operator consumes it.
fn force_witem(w: WItem) -> (r: Result<Vec<Step>, EvalError>)
    ensures
        match (r, spec_force(w@)) {
            (Ok(f), Ok(sf)) => step_views(f@) == sf,
            (Err(e), Err(se)) => e@.kind == se.kind && e@.context == se.context,
            _ => false,
        },
{
    match w {
        WItem::Done(f) => Ok(f),
        WItem::Raw { text, code } => match code {
            Ok(f) => Ok(f),
            Err(e) => {
                let mut line = "Evaluating postfix expression: '".to_owned();
                line.append(text.as_str());
                line.append("'");
                Err(e.with_context(line))
            },
        },
    }
}

/// Run the postfix machine over a laid-out postfix ordering.
#[verifier::loop_isolation(false)]
fn run_walk(pf: Vec<CItem>) -> (r: Result<Vec<Step>, EvalError>)
    ensures
        match (r, spec_walk(cviews(pf@), 0, Seq::empty())) {
            (Ok(f), Ok(sf)) => step_views(f@) == sf,
            (Err(e), Err(se)) => e@.kind == se.kind && e@.context == se.context,
            _ => false,
        },
{
    let ghost pfv = cviews(pf@);
    let mut rest = pf;
    let mut stack: Vec<WItem> = Vec::new();
    let ghost mut i: int = 0;
    proof {
        assert(wviews(stack@) =~= Seq::<SpecWItem>::empty());
    }
    while rest.len() > 0
        invariant
            0 <= i,
            i + rest@.len() == pfv.len(),
            forall|j: int| 0 <= j < rest@.len() ==> (#[trigger] rest@[j])@ == pfv[i + j],
            spec_walk(pfv, 0, Seq::empty()) == spec_walk(pfv, i, wviews(stack@)),
        decreases rest@.len(),
    {
        let ghost prevrest = rest@;
        let it = rest.remove(0);
        proof {
            assert(rest@ =~= prevrest.remove(0));
            assert(it@ == pfv[i]);
        }
        match it {
            CItem::Op(o) => {
                if stack.len() < 2 {
                    return Err(EvalError::new(EvalErrorKind::MissingOperand));
                }
                let ghost pstack0 = stack@;
                let ghost sv = wviews(stack@);
                let b = match stack.pop() {
                    Some(b) => b,
                    None => unreached(),
                };
                let a = match stack.pop() {
                    Some(a) => a,
                    None => unreached(),
                };
                proof {
                    assert(stack@ =~= pstack0.drop_last().drop_last());
                    assert(b@ == sv.last());
                    assert(a@ == sv[sv.len() - 2]);
                    assert(wviews(stack@) =~= sv.drop_last().drop_last());
                }
                let ca = match force_witem(a) {
                    Ok(f) => f,
                    Err(e) => {
                        return Err(e);
                    },
                };
                let cb = match force_witem(b) {
                    Ok(f) => f,
                    Err(e) => {
                        return Err(e);
                    },
                };
                if !o.is_real() {
                    return Err(EvalError::new(EvalErrorKind::SentinelApplied));
                }
                let mut f = ca;
                let mut cb = cb;
                let ghost cav = step_views(f@);
                let ghost cbv = step_views(cb@);
                f.append(&mut cb);
                proof {
                    assert(step_views(f@) =~= cav + cbv);
                }
                let ghost fv = step_views(f@);
                f.push(Step::Apply(o));
                proof {
                    assert(step_views(f@) =~= fv.push(SpecStep::Apply(o)));
                    assert(cav + cbv + seq![SpecStep::Apply(o)] =~= (cav + cbv).push(
                        SpecStep::Apply(o),
                    ));
                }
                let ghost pstack = stack@;
                stack.push(WItem::Done(f));
                proof {
                    assert(wviews(stack@) =~= wviews(pstack).push(SpecWItem::Done(step_views(f@))));
                }
            },
            CItem::Raw { text, code } => {
                let ghost pstack = stack@;
                let w = WItem::Raw { text, code };
                let ghost wv = w@;
                stack.push(w);
                proof {
                    assert(wviews(stack@) =~= wviews(pstack).push(wv));
                }
            },
        }
        proof {
            i = i + 1;
        }
    }
    if stack.len() != 1 {
        return Err(EvalError::new(EvalErrorKind::InvalidExpression));
    }
    let w = match stack.pop() {
        Some(w) => w,
        None => unreached(),
    };
    match w {
        WItem::Done(f) => Ok(f),
        WItem::Raw { text, code } => code,
    }
}

} // verus!

verus! {

/// A laid-out run has as many items as nodes.
pub proof fn lemma_operands_len(env: SpecEvaluator, xs: Seq<Node>)
    ensures
        spec_compile_operands(env, xs).len() == xs.len(),
    decreases xs.len(),
{
    if xs.len() > 0 {
        lemma_operands_len(env, xs.drop_last());
    }
}

/// The `i`th laid-out item is the `i`th node laid out.
pub proof fn lemma_operands_index(env: SpecEvaluator, xs: Seq<Node>, i: int)
    requires
        0 <= i < xs.len(),
    ensures
        spec_compile_operands(env, xs)[i] == spec_item_of(env, xs[i]),
    decreases xs.len(),
{
    lemma_operands_len(env, xs.drop_last());
    if i < xs.len() - 1 {
        lemma_operands_index(env, xs.drop_last(), i);
    }
}

/// The context line a registry function stamps on its errors.
fn fnctx_line(name: &str) -> (s: String)
    ensures
        s@ == "When evaluating function '"@ + name@ + "'"@,
{
    let mut s = "When evaluating function '".to_owned();
    s.append(name);
    s.append("'");
    s
}

impl AstEvaluator {
    /// Evaluate one infix run: lay its operands out in source order,
    /// convert to postfix, and run the postfix machine.
    #[verifier::loop_isolation(false)]
    fn eval_infix(&self, expr: &Vec<AstStatement>) -> (r: Result<Vec<Step>, EvalError>)
        ensures
            match (r, spec_eval_infix(self@, nodes_of(expr@))) {
                (Ok(f), Ok(sf)) => step_views(f@) == sf,
                (Err(e), Err(se)) => e@.kind == se.kind && e@.context == se.context,
                _ => false,
            },
        decreases expr, 0int,
    {
        let ghost xs = nodes_of(expr@);
        let ghost env = self@;
        let ghost sitems = spec_compile_operands(env, xs);
        proof {
            lemma_nodes_of_len(expr@);
            lemma_operands_len(env, xs);
        }
        let mut items: Vec<CItem> = Vec::new();
        let mut i: usize = 0;
        while i < expr.len()
            invariant
                i <= expr@.len(),
                items@.len() == i,
                forall|j: int| 0 <= j < i ==> (#[trigger] items@[j])@ == sitems[j],
            decreases expr@.len() - i,
        {
            proof {
                lemma_nodes_of_index(expr@, i as int);
                lemma_operands_index(env, xs, i as int);
            }
            let node = &expr[i];
            let item = if matches!(node, AstStatement::Operator(_)) {
                let o = node.unwrap_operator();
                CItem::Op(o)
            } else {
                let text = node.to_text();
                let code = self.compile_frag(node);
                CItem::Raw { text, code }
            };
            proof {
                assert(item@ =~~= sitems[i as int]);
            }
            items.push(item);
            i += 1;
        }
        proof {
            assert(cviews(items@) =~= sitems);
        }
        match shunt_items(items) {
            Err(e) => Err(e.with_context("Converting infix expression to postfix".to_owned())),
            Ok(pf) => run_walk(pf),
        }
    }

    /// Lay out the program of one expression node.
    fn compile_frag(&self, statement: &AstStatement) -> (r: Result<Vec<Step>, EvalError>)
        ensures
            match (r, spec_compile(self@, statement@)) {
                (Ok(f), Ok(sf)) => step_views(f@) == sf,
                (Err(e), Err(se)) => e@.kind == se.kind && e@.context == se.context,
                _ => false,
            },
        decreases statement, 1int,
    {
        match statement {
            AstStatement::Number { neg, kind, text } => {
                let mut steps: Vec<Step> = Vec::new();
                steps.push(Step::PushLiteral { neg: *neg, kind: *kind, text: text.clone() });
                proof {
                    assert(step_views(steps@) =~= seq![
                        SpecStep::PushLiteral { neg: *neg, kind: *kind, text: text@ },
                    ]);
                }
                Ok(steps)
            },
            AstStatement::Variable(v) => match self.get_variable(v.clone()) {
                Ok(val) => {
                    let mut steps: Vec<Step> = Vec::new();
                    steps.push(Step::PushBits(val.bits));
                    proof {
                        assert(step_views(steps@) =~= seq![SpecStep::PushBits(val.bits)]);
                    }
                    Ok(steps)
                },
                Err(e) => Err(e),
            },
            AstStatement::InfixExpression(v) => match self.eval_infix(v) {
                Ok(f) => Ok(f),
                Err(e) => {
                    let mut line = "Evaluating expression: '".to_owned();
                    let t = statement.to_text();
                    line.append(t.as_str());
                    line.append("'");
                    Err(e.with_context(line))
                },
            },
            AstStatement::Operator(o) => Err(
                EvalError::new(EvalErrorKind::OperatorAsExpression(*o)),
            ),
            AstStatement::FunctionCall { name, params } => {
                match self.eval_function(name.as_str(), params) {
                    Ok(p) => Ok(p.steps),
                    Err(e) => {
                        let mut line = "Evaluating function: '".to_owned();
                        let t = statement.to_text();
                        line.append(t.as_str());
                        line.append("'");
                        Err(e.with_context(line))
                    },
                }
            },
        }
    }

    /// Evaluate a full expression node into the arithmetic program
    /// whose run gives its value. This does lookups into the constants
    /// and variables, dispatches functions, and resolves operators.
    pub fn eval(&self, statement: &AstStatement) -> (r: Result<Program, EvalError>)
        ensures
            match (r, spec_compile(self@, statement@)) {
                (Ok(p), Ok(sf)) => p@ == sf,
                (Err(e), Err(se)) => e@.kind == se.kind && e@.context == se.context,
                _ => false,
            },
        decreases statement, 2int,
    {
        match self.compile_frag(statement) {
            Ok(steps) => Ok(Program { steps }),
            Err(e) => Err(e),
        }
    }

    /// Lay out a function call by its name: the registry first, then
    /// the `log_<base>` and `log_B` forms.
    #[verifier::loop_isolation(false)]
    pub fn eval_function(&self, name: &str, args: &Vec<AstStatement>) -> (r: Result<
        Program,
        EvalError,
    >)
        ensures
            match (r, spec_compile_call(self@, name@, nodes_of(args@))) {
                (Ok(p), Ok(sf)) => p@ == sf,
                (Err(e), Err(se)) => e@.kind == se.kind && e@.context == se.context,
                _ => false,
            },
        decreases args, 0int,
    {
        let ghost env = self@;
        let ghost ps = nodes_of(args@);
        proof {
            lemma_nodes_of_len(args@);
        }
        match lookup(&self.known_functions, name) {
            Some(b) => {
                if matches!(b, Builtin::Gcd) {
                    if args.len() < 1 {
                        return Err(
                            EvalError::new(EvalErrorKind::ArityGcd).with_context(fnctx_line(name)),
                        );
                    }
                    let mut code: Vec<Step> = Vec::new();
                    let mut k: usize = 0;
                    proof {
                        match spec_compile_args(env, ps, 0) {
                            Ok(full) => {
                                assert(Seq::<SpecStep>::empty() + full =~= full);
                            },
                            Err(_) => {},
                        }
                    }
                    while k < args.len()
                        invariant
                            k <= args@.len(),
                            spec_compile_args(env, ps, 0) == (match spec_compile_args(
                                env,
                                ps,
                                k as int,
                            ) {
                                Ok(rest) => Ok(step_views(code@) + rest),
                                Err(e) => Err(e),
                            }),
                        decreases args@.len() - k,
                    {
                        proof {
                            lemma_nodes_of_index(args@, k as int);
                        }
                        match self.compile_frag(&args[k]) {
                            Ok(ca) => {
                                let mut ca = ca;
                                let ghost codev = step_views(code@);
                                let ghost cav = step_views(ca@);
                                code.append(&mut ca);
                                proof {
                                    assert(step_views(code@) =~= codev + cav);
                                    match spec_compile_args(env, ps, k + 1int) {
                                        Ok(rest) => {
                                            assert(codev + (cav + rest) =~= (codev + cav) + rest);
                                        },
                                        Err(_) => {},
                                    }
                                }
                            },
                            Err(e) => {
                                return Err(e.with_context(fnctx_line(name)));
                            },
                        }
                        k += 1;
                    }
                    proof {
                        assert(step_views(code@) + Seq::<SpecStep>::empty() =~= step_views(code@));
                    }
                    let ghost codev = step_views(code@);
                    let argc = args.len();
                    code.push(Step::FoldGcd { argc });
                    proof {
                        assert(step_views(code@) =~= codev.push(
                            SpecStep::FoldGcd { argc: argc as int },
                        ));
                    }
                    Ok(Program { steps: code })
                } else {
                    if args.len() != 1 {
                        return Err(
                            EvalError::new(
                                EvalErrorKind::ArityOne(name.to_owned()),
                            ).with_context(fnctx_line(name)),
                        );
                    }
                    proof {
                        lemma_nodes_of_index(args@, 0);
                    }
                    match self.compile_frag(&args[0]) {
                        Ok(ca) => {
                            let mut ca = ca;
                            let ghost cav = step_views(ca@);
                            ca.push(Step::ApplyUnary(b));
                            proof {
                                assert(step_views(ca@) =~= cav.push(SpecStep::ApplyUnary(b)));
                            }
                            Ok(Program { steps: ca })
                        },
                        Err(e) => Err(e.with_context(fnctx_line(name))),
                    }
                }
            },
            None => {
                let nlen = name.unicode_len();
                let is_log = nlen >= 4 && str_eq(name.substring_char(0, 4), "log_");
                if is_log {
                    let suffix = name.substring_char(4, nlen);
                    proof {
                        assert(suffix@ =~= name@.skip(4));
                    }
                    if is_float_text(suffix) {
                        if args.len() != 1 {
                            return Err(
                                EvalError::new(
                                    EvalErrorKind::ArityLog {
                                        base: suffix.to_owned(),
                                        found: args.len(),
                                    },
                                ),
                            );
                        }
                        proof {
                            lemma_nodes_of_index(args@, 0);
                        }
                        match self.compile_frag(&args[0]) {
                            Ok(ca) => {
                                let mut ca = ca;
                                let ghost cav = step_views(ca@);
                                ca.push(Step::LogNamed { base: suffix.to_owned() });
                                proof {
                                    assert(step_views(ca@) =~= cav.push(
                                        SpecStep::LogNamed { base: suffix@ },
                                    ));
                                }
                                Ok(Program { steps: ca })
                            },
                            Err(e) => Err(e),
                        }
                    } else if str_eq(suffix, "B") {
                        if args.len() != 2 {
                            return Err(
                                EvalError::new(EvalErrorKind::ArityLogB { found: args.len() }),
                            );
                        }
                        proof {
                            lemma_nodes_of_index(args@, 0);
                            lemma_nodes_of_index(args@, 1);
                        }
                        match self.compile_frag(&args[0]) {
                            Err(e) => Err(e),
                            Ok(ca) => match self.compile_frag(&args[1]) {
                                Err(e) => Err(e),
                                Ok(cb) => {
                                    let mut ca = ca;
                                    let mut cb = cb;
                                    let ghost cav = step_views(ca@);
                                    let ghost cbv = step_views(cb@);
                                    ca.append(&mut cb);
                                    proof {
                                        assert(step_views(ca@) =~= cav + cbv);
                                    }
                                    let ghost fv = step_views(ca@);
                                    ca.push(Step::LogPair);
                                    proof {
                                        assert(step_views(ca@) =~= fv.push(SpecStep::LogPair));
                                        assert(cav + cbv + seq![SpecStep::LogPair] =~= (cav + cbv)
                                            .push(SpecStep::LogPair));
                                    }
                                    Ok(Program { steps: ca })
                                },
                            },
                        }
                    } else {
                        Err(EvalError::new(EvalErrorKind::InvalidLogBase(suffix.to_owned())))
                    }
                } else {
                    Err(EvalError::new(EvalErrorKind::UnknownFunction(name.to_owned())))
                }
            },
        }
    }
}

} // verus!
