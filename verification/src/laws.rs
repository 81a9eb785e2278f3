//! Laws of the expression engine, stated and proved once and for all
//! inputs.

use vstd::prelude::*;

use crate::ast::Node;
use crate::error::SpecEvalError;
use crate::eval::{
    drain_stack, it_drain, it_pop_to_lparen, it_pop_while_le, pop_to_lparen, pop_while_le,
    spec_compile, spec_force, spec_infix_to_postfix, spec_shunt_from, spec_shunt_items, spec_walk,
    SpecCItem, SpecEvaluator, SpecStep, SpecWItem,
};
use crate::op::Operator;

verus! {

/// Re-evaluating the same expression against an unchanged environment
/// yields the identical result, program or error: evaluation is a
/// function of the environment and the expression alone, and `eval`
/// takes both the evaluator and the expression immutably, so no
/// hidden state can advance between two evaluations.
pub proof fn lemma_evaluation_repeatable(
    env: SpecEvaluator,
    n: Node,
    r1: Result<Seq<SpecStep>, SpecEvalError>,
    r2: Result<Seq<SpecStep>, SpecEvalError>,
)
    requires
        r1 == spec_compile(env, n),
        r2 == spec_compile(env, n),
    ensures
        r1 == r2,
{
}

/// The uniform `<=` pop rule applies the same left-associative order
/// to every operator, the exponent included: a chain `a ** b ** c`
/// converts to postfix as `(a b **) c **`, not as `a (b c **) **`.
pub proof fn lemma_exponent_chain_left_associative(a: Node, b: Node, c: Node)
    requires
        !(a is Op),
        !(b is Op),
        !(c is Op),
    ensures
        spec_infix_to_postfix(
            seq![
                a,
                Node::Op(Operator::Exponent),
                b,
                Node::Op(Operator::Exponent),
                c,
            ],
        ) == Ok::<Seq<Node>, ()>(
            seq![
                a,
                b,
                Node::Op(Operator::Exponent),
                c,
                Node::Op(Operator::Exponent),
            ],
        ),
{
    reveal_with_fuel(crate::eval::spec_shunt_from, 7);
    reveal_with_fuel(crate::eval::pop_while_le, 3);
    reveal_with_fuel(crate::eval::drain_stack, 3);
    let xs = seq![
        a,
        Node::Op(Operator::Exponent),
        b,
        Node::Op(Operator::Exponent),
        c,
    ];
    let target = seq![
        a,
        b,
        Node::Op(Operator::Exponent),
        c,
        Node::Op(Operator::Exponent),
    ];
    match spec_infix_to_postfix(xs) {
        Ok(out) => {
            assert(out =~= target);
        },
        Err(_) => {
            assert(false);
        },
    }
}

/// A higher-precedence operator on the right binds first: the run
/// `a + b * c` converts to postfix as `a (b c *) +`.
pub proof fn lemma_precedence_orders_postfix(a: Node, b: Node, c: Node)
    requires
        !(a is Op),
        !(b is Op),
        !(c is Op),
    ensures
        spec_infix_to_postfix(
            seq![a, Node::Op(Operator::Add), b, Node::Op(Operator::Multiply), c],
        ) == Ok::<Seq<Node>, ()>(
            seq![
                a,
                b,
                c,
                Node::Op(Operator::Multiply),
                Node::Op(Operator::Add),
            ],
        ),
{
    reveal_with_fuel(crate::eval::spec_shunt_from, 7);
    reveal_with_fuel(crate::eval::pop_while_le, 3);
    reveal_with_fuel(crate::eval::drain_stack, 3);
    let xs = seq![a, Node::Op(Operator::Add), b, Node::Op(Operator::Multiply), c];
    let target = seq![
        a,
        b,
        c,
        Node::Op(Operator::Multiply),
        Node::Op(Operator::Add),
    ];
    match spec_infix_to_postfix(xs) {
        Ok(out) => {
            assert(out =~= target);
        },
        Err(_) => {
            assert(false);
        },
    }
}

} // verus!

verus! {

/// How many operands an instruction consumes (each pushes one).
pub open spec fn step_pops(s: SpecStep) -> int {
    match s {
        SpecStep::PushLiteral { .. } => 0,
        SpecStep::PushBits(_) => 0,
        SpecStep::Apply(_) => 2,
        SpecStep::ApplyUnary(_) => 1,
        SpecStep::FoldGcd { argc } => argc,
        SpecStep::LogNamed { .. } => 1,
        SpecStep::LogPair => 2,
    }
}

/// The instructions evaluation may lay out: a real operator, a fold
/// of at least one argument.
pub open spec fn step_ok(s: SpecStep) -> bool {
    match s {
        SpecStep::Apply(o) => o.spec_is_real(),
        SpecStep::FoldGcd { argc } => argc >= 1,
        _ => true,
    }
}

/// The stack depth after running `f` from position `i` at depth `d`,
/// or nothing when some instruction lacks operands.
pub open spec fn run_depth(f: Seq<SpecStep>, i: int, d: int) -> Option<int>
    decreases f.len() - i,
{
    if i < 0 || i >= f.len() {
        Some(d)
    } else if !step_ok(f[i]) || d < step_pops(f[i]) {
        None
    } else {
        run_depth(f, i + 1, d - step_pops(f[i]) + 1)
    }
}

/// A program is well formed when, run from an empty stack, every
/// instruction finds its operands and exactly one value remains.
pub open spec fn spec_program_wf(f: Seq<SpecStep>) -> bool {
    run_depth(f, 0, 0) == Some(1int)
}

/// A fragment that adds `m` values to any stack it runs on.
pub open spec fn frag_adds(f: Seq<SpecStep>, m: int) -> bool {
    forall|d: int| d >= 0 ==> #[trigger] run_depth(f, 0, d) == Some(d + m)
}

/// Running the concatenation from the seam onward is running the
/// second part.
proof fn lemma_run_depth_skip(f: Seq<SpecStep>, g: Seq<SpecStep>, j: int, d: int)
    requires
        0 <= j <= g.len(),
    ensures
        run_depth(f + g, f.len() + j, d) == run_depth(g, j, d),
    decreases g.len() - j,
{
    if j < g.len() {
        assert((f + g)[f.len() + j] == g[j]);
        if step_ok(g[j]) && d >= step_pops(g[j]) {
            lemma_run_depth_skip(f, g, j + 1, d - step_pops(g[j]) + 1);
        }
    }
}

/// Running a concatenation is running the first part, then the second
/// from the depth it left.
proof fn lemma_run_depth_concat(f: Seq<SpecStep>, g: Seq<SpecStep>, i: int, d: int)
    requires
        0 <= i <= f.len(),
    ensures
        run_depth(f + g, i, d) == (match run_depth(f, i, d) {
            Some(m) => run_depth(g, 0, m),
            None => None,
        }),
    decreases f.len() - i,
{
    if i < f.len() {
        assert((f + g)[i] == f[i]);
        if step_ok(f[i]) && d >= step_pops(f[i]) {
            lemma_run_depth_concat(f, g, i + 1, d - step_pops(f[i]) + 1);
        }
    } else {
        lemma_run_depth_skip(f, g, 0, d);
    }
}

/// Two stacked fragments add the sum of what each adds.
proof fn lemma_frag_adds_concat(f: Seq<SpecStep>, g: Seq<SpecStep>, m1: int, m2: int)
    requires
        frag_adds(f, m1),
        frag_adds(g, m2),
        m1 >= 0,
    ensures
        frag_adds(f + g, m1 + m2),
{
    assert forall|d: int| d >= 0 implies #[trigger] run_depth(f + g, 0, d) == Some(
        d + (m1 + m2),
    ) by {
        lemma_run_depth_concat(f, g, 0, d);
        assert(run_depth(f, 0, d) == Some(d + m1));
        assert(run_depth(g, 0, (d + m1) as int) == Some(d + m1 + m2));
    }
}

/// A fragment with one more reducing instruction at the end adds one
/// less than the fragment, provided the instruction is satisfiable.
proof fn lemma_frag_adds_step(f: Seq<SpecStep>, s: SpecStep, m: int)
    requires
        frag_adds(f, m),
        step_ok(s),
        m >= step_pops(s),
    ensures
        frag_adds(f.push(s), m + 1 - step_pops(s)),
{
    assert forall|d: int| d >= 0 implies #[trigger] run_depth(f.push(s), 0, d) == Some(
        d + (m + 1 - step_pops(s)),
    ) by {
        assert(f.push(s) =~= f + seq![s]);
        lemma_run_depth_concat(f, seq![s], 0, d);
        assert(run_depth(f, 0, d) == Some(d + m));
        let dm = d + m;
        assert(seq![s][0] == s);
        assert(run_depth(seq![s], 1, dm - step_pops(s) + 1) == Some(dm - step_pops(s) + 1));
        assert(run_depth(seq![s], 0, dm) == Some(dm - step_pops(s) + 1));
    }
}

} // verus!

verus! {

/// A laid-out operand whose program (when it has one) adds exactly
/// one value to any stack.
pub open spec fn unit_item(it: SpecCItem) -> bool {
    match it {
        SpecCItem::Op(_) => true,
        SpecCItem::Raw { text, code } => match code {
            Ok(f) => frag_adds(f, 1),
            Err(_) => true,
        },
    }
}

/// Every item of the run is a unit item.
pub open spec fn items_units(xs: Seq<SpecCItem>) -> bool {
    forall|j: int| 0 <= j < xs.len() ==> unit_item(#[trigger] xs[j])
}

/// Every entry of the machine stack holds a one-value program.
pub open spec fn stack_units(st: Seq<SpecWItem>) -> bool {
    forall|j: int|
        0 <= j < st.len() ==> match #[trigger] st[j] {
            SpecWItem::Done(f) => frag_adds(f, 1),
            SpecWItem::Raw { text, code } => match code {
                Ok(f) => frag_adds(f, 1),
                Err(_) => true,
            },
        }
}

/// Every operand item of `xs` occurs in `items`.
pub open spec fn raws_from(xs: Seq<SpecCItem>, items: Seq<SpecCItem>) -> bool {
    forall|j: int|
        0 <= j < xs.len() && !((#[trigger] xs[j]) is Op) ==> exists|k: int|
            0 <= k < items.len() && #[trigger] items[k] == xs[j]
}

/// Popping to a parenthesis emits only operator items.
proof fn lemma_pop_to_lparen_ops(ops: Seq<Operator>)
    ensures
        match it_pop_to_lparen(ops) {
            Some(p) => forall|j: int| 0 <= j < p.0.len() ==> (#[trigger] p.0[j]) is Op,
            None => true,
        },
    decreases ops.len(),
{
    if ops.len() > 0 && ops.last() != Operator::LeftParen {
        lemma_pop_to_lparen_ops(ops.drop_last());
    }
}

/// Popping by precedence emits only operator items.
proof fn lemma_pop_while_le_ops(ops: Seq<Operator>, p: i64)
    ensures
        forall|j: int|
            0 <= j < it_pop_while_le(ops, p).0.len() ==> (#[trigger] it_pop_while_le(
                ops,
                p,
            ).0[j]) is Op,
    decreases ops.len(),
{
    if !(ops.len() == 0 || p > ops.last().spec_prec()) {
        lemma_pop_while_le_ops(ops.drop_last(), p);
    }
}

/// Draining the stack emits only operator items.
proof fn lemma_drain_ops(ops: Seq<Operator>)
    ensures
        forall|j: int| 0 <= j < it_drain(ops).len() ==> (#[trigger] it_drain(ops)[j]) is Op,
    decreases ops.len(),
{
    if ops.len() > 0 {
        lemma_drain_ops(ops.drop_last());
    }
}

/// The postfix conversion only reorders: every operand item of its
/// output stands in its input.
proof fn lemma_shunt_raws(items: Seq<SpecCItem>, i: int, out: Seq<SpecCItem>, ops: Seq<Operator>)
    requires
        raws_from(out, items),
    ensures
        match spec_shunt_items(items, i, out, ops) {
            Ok(r) => raws_from(r, items),
            Err(_) => true,
        },
    decreases items.len() - i,
{
    if i < 0 || i >= items.len() {
        lemma_drain_ops(ops);
        let r = out + it_drain(ops);
        assert forall|j: int| 0 <= j < r.len() && !((#[trigger] r[j]) is Op) implies exists|k: int|
            0 <= k < items.len() && #[trigger] items[k] == r[j] by {
            assert(j < out.len() && r[j] == out[j]);
        }
    } else {
        match items[i] {
            SpecCItem::Op(o) => {
                if o == Operator::RightParen {
                    match it_pop_to_lparen(ops) {
                        None => {},
                        Some(p) => {
                            lemma_pop_to_lparen_ops(ops);
                            let nout = out + p.0;
                            assert forall|j: int|
                                0 <= j < nout.len() && !((#[trigger] nout[j]) is Op) implies exists|
                                k: int,
                            | 0 <= k < items.len() && #[trigger] items[k] == nout[j] by {
                                assert(j < out.len() && nout[j] == out[j]);
                            }
                            lemma_shunt_raws(items, i + 1, nout, p.1);
                        },
                    }
                } else if o == Operator::LeftParen {
                    lemma_shunt_raws(items, i + 1, out, ops.push(Operator::LeftParen));
                } else {
                    let q = it_pop_while_le(ops, o.spec_prec());
                    lemma_pop_while_le_ops(ops, o.spec_prec());
                    let nout = out + q.0;
                    assert forall|j: int|
                        0 <= j < nout.len() && !((#[trigger] nout[j]) is Op) implies exists|k: int|
                        0 <= k < items.len() && #[trigger] items[k] == nout[j] by {
                        assert(j < out.len() && nout[j] == out[j]);
                    }
                    lemma_shunt_raws(items, i + 1, nout, q.1.push(o));
                }
            },
            _ => {
                let nout = out.push(items[i]);
                assert forall|j: int|
                    0 <= j < nout.len() && !((#[trigger] nout[j]) is Op) implies exists|k: int|
                    0 <= k < items.len() && #[trigger] items[k] == nout[j] by {
                    if j < out.len() {
                        assert(nout[j] == out[j]);
                    } else {
                        assert(nout[j] == items[i]);
                    }
                }
                lemma_shunt_raws(items, i + 1, nout, ops);
            },
        }
    }
}

/// The postfix machine, fed unit items, lays out a one-value program
/// whenever it succeeds.
proof fn lemma_walk_unit(pf: Seq<SpecCItem>, i: int, stack: Seq<SpecWItem>)
    requires
        items_units(pf),
        stack_units(stack),
    ensures
        match spec_walk(pf, i, stack) {
            Ok(f) => frag_adds(f, 1),
            Err(_) => true,
        },
    decreases pf.len() - i,
{
    if i < 0 || i >= pf.len() {
        if stack.len() == 1 {
            assert(match stack[0] {
                SpecWItem::Done(f) => frag_adds(f, 1),
                SpecWItem::Raw { text, code } => match code {
                    Ok(f) => frag_adds(f, 1),
                    Err(_) => true,
                },
            });
        }
    } else {
        match pf[i] {
            SpecCItem::Raw { text, code } => {
                let nstack = stack.push(SpecWItem::Raw { text, code });
                assert(unit_item(pf[i]));
                assert(stack_units(nstack)) by {
                    assert forall|j: int| 0 <= j < nstack.len() implies match #[trigger] nstack[j] {
                        SpecWItem::Done(f) => frag_adds(f, 1),
                        SpecWItem::Raw { text, code } => match code {
                            Ok(f) => frag_adds(f, 1),
                            Err(_) => true,
                        },
                    } by {
                        if j < stack.len() {
                            assert(nstack[j] == stack[j]);
                        } else {
                            assert(nstack[j] == SpecWItem::Raw { text, code });
                        }
                    }
                }
                lemma_walk_unit(pf, i + 1, nstack);
            },
            SpecCItem::Op(o) => {
                if stack.len() >= 2 {
                    let b = stack.last();
                    let a = stack[stack.len() - 2];
                    match spec_force(a) {
                        Err(_) => {},
                        Ok(ca) => match spec_force(b) {
                            Err(_) => {},
                            Ok(cb) => {
                                if o.spec_is_real() {
                                    assert(frag_adds(ca, 1));
                                    assert(frag_adds(cb, 1));
                                    lemma_frag_adds_concat(ca, cb, 1, 1);
                                    lemma_frag_adds_step(ca + cb, SpecStep::Apply(o), 2);
                                    let f = ca + cb + seq![SpecStep::Apply(o)];
                                    assert(f =~= (ca + cb).push(SpecStep::Apply(o)));
                                    let nstack = stack.drop_last().drop_last().push(
                                        SpecWItem::Done(f),
                                    );
                                    assert(stack_units(nstack)) by {
                                        assert forall|j: int|
                                            0 <= j < nstack.len() implies match #[trigger] nstack[j] {
                                            SpecWItem::Done(g) => frag_adds(g, 1),
                                            SpecWItem::Raw { text, code } => match code {
                                                Ok(g) => frag_adds(g, 1),
                                                Err(_) => true,
                                            },
                                        } by {
                                            if j < nstack.len() - 1 {
                                                assert(nstack[j] == stack[j]);
                                            } else {
                                                assert(nstack[j] == SpecWItem::Done(f));
                                            }
                                        }
                                    }
                                    lemma_walk_unit(pf, i + 1, nstack);
                                }
                            },
                        },
                    }
                }
            },
        }
    }
}

} // verus!

verus! {

/// The empty fragment adds nothing.
proof fn lemma_frag_empty()
    ensures
        frag_adds(Seq::<SpecStep>::empty(), 0),
{
    assert forall|d: int| d >= 0 implies #[trigger] run_depth(Seq::<SpecStep>::empty(), 0, d)
        == Some(d + 0) by {
        assert(run_depth(Seq::<SpecStep>::empty(), 0, d) == Some(d));
    }
}

/// A single push instruction adds one value.
proof fn lemma_frag_single_push(s: SpecStep)
    requires
        step_ok(s),
        step_pops(s) == 0,
    ensures
        frag_adds(seq![s], 1),
{
    lemma_frag_empty();
    assert(Seq::<SpecStep>::empty().push(s) =~= seq![s]);
    lemma_frag_adds_step(Seq::<SpecStep>::empty(), s, 0);
}

/// Whatever program evaluating a node lays out adds exactly one value
/// to any stack.
proof fn lemma_compile_unit(env: SpecEvaluator, n: Node)
    ensures
        match spec_compile(env, n) {
            Ok(f) => frag_adds(f, 1),
            Err(_) => true,
        },
    decreases n, 0int,
{
    match n {
        Node::Number { neg, kind, text } => {
            lemma_frag_single_push(SpecStep::PushLiteral { neg, kind, text });
        },
        Node::Variable(v) => {
            match crate::eval::spec_get_variable(env, v) {
                Some(val) => {
                    lemma_frag_single_push(SpecStep::PushBits(val.bits));
                },
                None => {},
            }
        },
        Node::Infix(xs) => {
            lemma_operands_units(env, xs);
            let items = crate::eval::spec_compile_operands(env, xs);
            match crate::eval::spec_items_postfix(items) {
                Err(_) => {},
                Ok(pf) => {
                    lemma_shunt_raws(items, 0, Seq::empty(), Seq::empty());
                    assert(items_units(pf)) by {
                        assert forall|j: int| 0 <= j < pf.len() implies unit_item(
                            #[trigger] pf[j],
                        ) by {
                            if !(pf[j] is Op) {
                                let k = choose|k: int|
                                    0 <= k < items.len() && #[trigger] items[k] == pf[j];
                                assert(unit_item(items[k]));
                            }
                        }
                    }
                    lemma_walk_unit(pf, 0, Seq::empty());
                },
            }
        },
        Node::Op(_) => {},
        Node::Call { name, params } => {
            lemma_call_unit(env, name, params);
        },
    }
}

/// Every item a run lays out is a unit item.
proof fn lemma_operands_units(env: SpecEvaluator, xs: Seq<Node>)
    ensures
        items_units(crate::eval::spec_compile_operands(env, xs)),
    decreases xs, 1int,
{
    if xs.len() > 0 {
        lemma_operands_units(env, xs.drop_last());
        lemma_item_unit(env, xs.last());
        let prev = crate::eval::spec_compile_operands(env, xs.drop_last());
        let item = crate::eval::spec_item_of(env, xs.last());
        let items = prev.push(item);
        assert forall|j: int| 0 <= j < items.len() implies unit_item(#[trigger] items[j]) by {
            if j < prev.len() {
                assert(items[j] == prev[j]);
            } else {
                assert(items[j] == item);
            }
        }
    }
}

/// One node laid out beside its text is a unit item.
proof fn lemma_item_unit(env: SpecEvaluator, n: Node)
    ensures
        unit_item(crate::eval::spec_item_of(env, n)),
    decreases n, 2int,
{
    match n {
        Node::Op(_) => {},
        _ => {
            lemma_compile_unit(env, n);
        },
    }
}

/// Laying out the arguments from position `k` on adds one value per
/// argument.
proof fn lemma_args_adds(env: SpecEvaluator, params: Seq<Node>, k: int)
    requires
        0 <= k <= params.len(),
    ensures
        match crate::eval::spec_compile_args(env, params, k) {
            Ok(code) => frag_adds(code, params.len() - k),
            Err(_) => true,
        },
    decreases params, params.len() - k + 3,
{
    if k >= params.len() {
        lemma_frag_empty();
    } else {
        lemma_compile_unit(env, params[k]);
        match crate::eval::spec_compile(env, params[k]) {
            Err(_) => {},
            Ok(ca) => {
                lemma_args_adds(env, params, k + 1);
                match crate::eval::spec_compile_args(env, params, k + 1) {
                    Err(_) => {},
                    Ok(rest) => {
                        lemma_frag_adds_concat(ca, rest, 1, params.len() - k - 1);
                    },
                }
            },
        }
    }
}

/// Whatever program a call lays out adds exactly one value.
proof fn lemma_call_unit(env: SpecEvaluator, name: Seq<char>, params: Seq<Node>)
    ensures
        match crate::eval::spec_compile_call(env, name, params) {
            Ok(f) => frag_adds(f, 1),
            Err(_) => true,
        },
    decreases params, params.len() + 4,
{
    match crate::functions::spec_lookup(env.funcs, name) {
        Some(b) => {
            if b == crate::functions::Builtin::Gcd {
                if params.len() >= 1 {
                    lemma_args_adds(env, params, 0);
                    match crate::eval::spec_compile_args(env, params, 0) {
                        Err(_) => {},
                        Ok(code) => {
                            lemma_frag_adds_step(
                                code,
                                SpecStep::FoldGcd { argc: params.len() as int },
                                params.len() as int,
                            );
                        },
                    }
                }
            } else {
                if params.len() == 1 {
                    lemma_compile_unit(env, params[0]);
                    match crate::eval::spec_compile(env, params[0]) {
                        Err(_) => {},
                        Ok(ca) => {
                            lemma_frag_adds_step(ca, SpecStep::ApplyUnary(b), 1);
                        },
                    }
                }
            }
        },
        None => {
            if name.len() >= 4 && name.subrange(0, 4) == "log_"@ {
                let suffix = name.skip(4);
                if crate::functions::spec_is_float_text(suffix) {
                    if params.len() == 1 {
                        lemma_compile_unit(env, params[0]);
                        match crate::eval::spec_compile(env, params[0]) {
                            Err(_) => {},
                            Ok(ca) => {
                                lemma_frag_adds_step(ca, SpecStep::LogNamed { base: suffix }, 1);
                            },
                        }
                    }
                } else if suffix == "B"@ {
                    if params.len() == 2 {
                        lemma_compile_unit(env, params[0]);
                        lemma_compile_unit(env, params[1]);
                        match crate::eval::spec_compile(env, params[0]) {
                            Err(_) => {},
                            Ok(ca) => match crate::eval::spec_compile(env, params[1]) {
                                Err(_) => {},
                                Ok(cb) => {
                                    lemma_frag_adds_concat(ca, cb, 1, 1);
                                    lemma_frag_adds_step(ca + cb, SpecStep::LogPair, 2);
                                    assert(ca + cb + seq![SpecStep::LogPair] =~= (ca + cb).push(
                                        SpecStep::LogPair,
                                    ));
                                },
                            },
                        }
                    }
                }
            }
        },
    }
}

/// The stack discipline of evaluation: whatever program it lays out,
/// run from an empty stack, gives every instruction its operands and
/// leaves exactly one value -- the expression's result.
pub proof fn lemma_program_runs_to_one_value(env: SpecEvaluator, n: Node)
    ensures
        match spec_compile(env, n) {
            Ok(f) => spec_program_wf(f),
            Err(_) => true,
        },
{
    lemma_compile_unit(env, n);
    match spec_compile(env, n) {
        Ok(f) => {
            assert(run_depth(f, 0, 0) == Some(1int));
        },
        Err(_) => {},
    }
}

} // verus!

verus! {

/// How many opening parentheses the operator stack holds.
pub open spec fn lp_count(ops: Seq<Operator>) -> int
    decreases ops.len(),
{
    if ops.len() == 0 {
        0
    } else {
        lp_count(ops.drop_last()) + if ops.last() == Operator::LeftParen {
            1int
        } else {
            0int
        }
    }
}

/// No node of `xs` is a parenthesis sentinel.
pub open spec fn no_sentinels(xs: Seq<Node>) -> bool {
    forall|j: int|
        0 <= j < xs.len() ==> (#[trigger] xs[j]) != Node::Op(Operator::LeftParen) && xs[j]
            != Node::Op(Operator::RightParen)
}

/// No closing parenthesis ever stands on the operator stack.
pub open spec fn ops_wf(ops: Seq<Operator>) -> bool {
    forall|j: int| 0 <= j < ops.len() ==> (#[trigger] ops[j]) != Operator::RightParen
}

/// The parentheses of `xs` from position `i` balance, starting `d`
/// groups deep.
pub open spec fn balanced_from(xs: Seq<Node>, i: int, d: int) -> bool
    decreases xs.len() - i,
{
    if i < 0 || i >= xs.len() {
        d == 0
    } else {
        match xs[i] {
            Node::Op(o) => {
                if o == Operator::LeftParen {
                    balanced_from(xs, i + 1, d + 1)
                } else if o == Operator::RightParen {
                    d > 0 && balanced_from(xs, i + 1, d - 1)
                } else {
                    balanced_from(xs, i + 1, d)
                }
            },
            _ => balanced_from(xs, i + 1, d),
        }
    }
}

/// An infix run whose parentheses balance.
pub open spec fn paren_balanced(xs: Seq<Node>) -> bool {
    balanced_from(xs, 0, 0)
}

/// Popping by a real operator's precedence emits no sentinel and
/// moves no opening parenthesis.
proof fn lemma_pop_while_le_no_sentinels(ops: Seq<Operator>, p: i64)
    requires
        p >= 1,
        ops_wf(ops),
    ensures
        no_sentinels(pop_while_le(ops, p).0),
        lp_count(pop_while_le(ops, p).1) == lp_count(ops),
        ops_wf(pop_while_le(ops, p).1),
    decreases ops.len(),
{
    if !(ops.len() == 0 || p > ops.last().spec_prec()) {
        assert(ops_wf(ops.drop_last())) by {
            assert(forall|j: int|
                0 <= j < ops.len() - 1 ==> ops.drop_last()[j] == #[trigger] ops[j]);
        }
        lemma_pop_while_le_no_sentinels(ops.drop_last(), p);
        let q = pop_while_le(ops.drop_last(), p);
        let r = seq![Node::Op(ops.last())] + q.0;
        assert(ops.last() != Operator::LeftParen);
        assert(ops.last() != Operator::RightParen);
        assert forall|j: int|
            0 <= j < r.len() implies (#[trigger] r[j]) != Node::Op(Operator::LeftParen) && r[j]
            != Node::Op(Operator::RightParen) by {
            if j == 0 {
                assert(r[j] == Node::Op(ops.last()));
            } else {
                assert(r[j] == q.0[j - 1]);
            }
        }
    }
}

/// With an opening parenthesis on the stack, popping to it succeeds,
/// emits no sentinel, and takes exactly one opening parenthesis.
proof fn lemma_pop_to_lparen_no_sentinels(ops: Seq<Operator>)
    requires
        ops_wf(ops),
        lp_count(ops) > 0,
    ensures
        pop_to_lparen(ops) is Some,
        no_sentinels((pop_to_lparen(ops)->0).0),
        lp_count((pop_to_lparen(ops)->0).1) == lp_count(ops) - 1,
        ops_wf((pop_to_lparen(ops)->0).1),
    decreases ops.len(),
{
    assert(ops.len() > 0);
    assert(ops_wf(ops.drop_last())) by {
        assert(forall|j: int| 0 <= j < ops.len() - 1 ==> ops.drop_last()[j] == #[trigger] ops[j]);
    }
    if ops.last() == Operator::LeftParen {
        assert(no_sentinels(Seq::<Node>::empty()));
    } else {
        lemma_pop_to_lparen_no_sentinels(ops.drop_last());
        let p = pop_to_lparen(ops.drop_last())->0;
        let r = seq![Node::Op(ops.last())] + p.0;
        assert forall|j: int|
            0 <= j < r.len() implies (#[trigger] r[j]) != Node::Op(Operator::LeftParen) && r[j]
            != Node::Op(Operator::RightParen) by {
            if j == 0 {
                assert(r[j] == Node::Op(ops.last()));
            } else {
                assert(r[j] == p.0[j - 1]);
            }
        }
    }
}

/// Draining a stack with no parenthesis left emits no sentinel.
proof fn lemma_drain_no_sentinels(ops: Seq<Operator>)
    requires
        ops_wf(ops),
        lp_count(ops) == 0,
    ensures
        no_sentinels(drain_stack(ops)),
    decreases ops.len(),
{
    if ops.len() > 0 {
        assert(lp_count(ops.drop_last()) >= 0) by {
            lemma_lp_count_nonneg(ops.drop_last());
        }
        assert(ops_wf(ops.drop_last())) by {
            assert(forall|j: int|
                0 <= j < ops.len() - 1 ==> ops.drop_last()[j] == #[trigger] ops[j]);
        }
        lemma_drain_no_sentinels(ops.drop_last());
        let r = seq![Node::Op(ops.last())] + drain_stack(ops.drop_last());
        assert(ops.last() != Operator::LeftParen);
        assert forall|j: int|
            0 <= j < r.len() implies (#[trigger] r[j]) != Node::Op(Operator::LeftParen) && r[j]
            != Node::Op(Operator::RightParen) by {
            if j == 0 {
                assert(r[j] == Node::Op(ops.last()));
            } else {
                assert(r[j] == drain_stack(ops.drop_last())[j - 1]);
            }
        }
    }
}

/// A parenthesis count is never negative.
proof fn lemma_lp_count_nonneg(ops: Seq<Operator>)
    ensures
        lp_count(ops) >= 0,
    decreases ops.len(),
{
    if ops.len() > 0 {
        lemma_lp_count_nonneg(ops.drop_last());
    }
}

/// The conversion pass on a balanced remainder succeeds and emits no
/// sentinel beyond those already in `out`.
proof fn lemma_shunt_balanced(xs: Seq<Node>, i: int, out: Seq<Node>, ops: Seq<Operator>, d: int)
    requires
        balanced_from(xs, i, d),
        lp_count(ops) == d,
        ops_wf(ops),
        no_sentinels(out),
    ensures
        spec_shunt_from(xs, i, out, ops) is Ok,
        no_sentinels(spec_shunt_from(xs, i, out, ops)->Ok_0),
    decreases xs.len() - i,
{
    if i < 0 || i >= xs.len() {
        lemma_drain_no_sentinels(ops);
        let r = out + drain_stack(ops);
        assert forall|j: int|
            0 <= j < r.len() implies (#[trigger] r[j]) != Node::Op(Operator::LeftParen) && r[j]
            != Node::Op(Operator::RightParen) by {
            if j < out.len() {
                assert(r[j] == out[j]);
            } else {
                assert(r[j] == drain_stack(ops)[j - out.len()]);
            }
        }
    } else {
        match xs[i] {
            Node::Op(o) => {
                if o == Operator::RightParen {
                    lemma_lp_count_nonneg(ops);
                    lemma_pop_to_lparen_no_sentinels(ops);
                    let p = pop_to_lparen(ops)->0;
                    let nout = out + p.0;
                    assert forall|j: int|
                        0 <= j < nout.len() implies (#[trigger] nout[j]) != Node::Op(
                        Operator::LeftParen,
                    ) && nout[j] != Node::Op(Operator::RightParen) by {
                        if j < out.len() {
                            assert(nout[j] == out[j]);
                        } else {
                            assert(nout[j] == p.0[j - out.len()]);
                        }
                    }
                    lemma_shunt_balanced(xs, i + 1, nout, p.1, d - 1);
                } else if o == Operator::LeftParen {
                    let nops = ops.push(Operator::LeftParen);
                    assert(lp_count(nops) == d + 1) by {
                        assert(nops.drop_last() =~= ops);
                    }
                    assert(ops_wf(nops)) by {
                        assert(forall|j: int|
                            0 <= j < ops.len() ==> nops[j] == #[trigger] ops[j]);
                    }
                    lemma_shunt_balanced(xs, i + 1, out, nops, d + 1);
                } else {
                    assert(o.spec_prec() >= 1);
                    lemma_pop_while_le_no_sentinels(ops, o.spec_prec());
                    let q = pop_while_le(ops, o.spec_prec());
                    let nout = out + q.0;
                    assert forall|j: int|
                        0 <= j < nout.len() implies (#[trigger] nout[j]) != Node::Op(
                        Operator::LeftParen,
                    ) && nout[j] != Node::Op(Operator::RightParen) by {
                        if j < out.len() {
                            assert(nout[j] == out[j]);
                        } else {
                            assert(nout[j] == q.0[j - out.len()]);
                        }
                    }
                    let nops = q.1.push(o);
                    assert(lp_count(nops) == d) by {
                        assert(nops.drop_last() =~= q.1);
                    }
                    assert(ops_wf(nops)) by {
                        assert(forall|j: int|
                            0 <= j < q.1.len() ==> nops[j] == #[trigger] q.1[j]);
                    }
                    lemma_shunt_balanced(xs, i + 1, nout, nops, d);
                }
            },
            _ => {
                let nout = out.push(xs[i]);
                assert forall|j: int|
                    0 <= j < nout.len() implies (#[trigger] nout[j]) != Node::Op(
                    Operator::LeftParen,
                ) && nout[j] != Node::Op(Operator::RightParen) by {
                    if j < out.len() {
                        assert(nout[j] == out[j]);
                    } else {
                        assert(nout[j] == xs[i]);
                    }
                }
                lemma_shunt_balanced(xs, i + 1, nout, ops, d);
            },
        }
    }
}

/// On an infix run whose parentheses balance, the postfix conversion
/// succeeds and its output carries no parenthesis sentinel.
pub proof fn lemma_balanced_postfix_has_no_sentinels(xs: Seq<Node>)
    requires
        paren_balanced(xs),
    ensures
        spec_infix_to_postfix(xs) is Ok,
        no_sentinels(spec_infix_to_postfix(xs)->Ok_0),
{
    lemma_shunt_balanced(xs, 0, Seq::empty(), Seq::empty(), 0);
}

} // verus!

