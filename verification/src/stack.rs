//! Every evaluation plan can be run: no step finds the stack too short, and
//! no step asks for a parameter that the caller does not hold.
use crate::ast::Opcode;
use crate::ast::Tree;
use crate::eval::compile;
use crate::eval::compile_layers;
use crate::eval::find;
use crate::eval::layer_count;
use crate::eval::layers_in;
use crate::eval::Bindings;
use crate::eval::Failure;
use crate::eval::Instr;
use vstd::prelude::*;

verus! {

/// The height of the stack after `step`, run on a stack of height `depth`;
/// `None` where the step finds too few operands.
pub open spec fn step_effect(step: Instr, depth: int) -> Option<int> {
    match step {
        Instr::Binary(_) => if depth >= 2 {
            Some(depth - 1)
        } else {
            None
        },
        Instr::Apply(_) => if depth >= 1 {
            Some(depth)
        } else {
            None
        },
        Instr::Square => if depth >= 1 {
            Some(depth)
        } else {
            None
        },
        _ => Some(depth + 1),
    }
}

/// The height of the stack after `code`, run on a stack of height `depth`;
/// `None` where some step finds too few operands.
pub open spec fn stack_after(code: Seq<Instr>, depth: int) -> Option<int>
    decreases code.len(),
{
    if code.len() == 0 {
        Some(depth)
    } else {
        match stack_after(code.drop_last(), depth) {
            Some(d) => step_effect(code.last(), d),
            None => None,
        }
    }
}

/// Whether every parameter that `code` pushes is one that the caller holds:
/// a single parameter's index lies in the list of single parameters, a
/// repeated parameter's index in the list of repeated ones, and its layer
/// among that parameter's layers.
pub open spec fn in_range(code: Seq<Instr>, ctx: Bindings) -> bool {
    forall|k: int|
        0 <= k < code.len() ==> match #[trigger] code[k] {
            Instr::Single(i) => 0 <= i < ctx.singles.len(),
            Instr::Layer { param, layer } => 0 <= param < ctx.repeated.len() && 0 <= layer
                < ctx.layers[param],
            _ => true,
        }
}

/// Running `a + b` is running `a` and then `b`.
pub proof fn lemma_stack_after_concat(a: Seq<Instr>, b: Seq<Instr>, depth: int)
    ensures
        stack_after(a + b, depth) == match stack_after(a, depth) {
            Some(d) => stack_after(b, d),
            None => None,
        },
    decreases b.len(),
{
    if b.len() == 0 {
        assert(a + b =~= a);
    } else {
        assert((a + b).drop_last() =~= a + b.drop_last());
        assert((a + b).last() == b.last());
        lemma_stack_after_concat(a, b.drop_last(), depth);
    }
}

proof fn lemma_stack_after_one(step: Instr, depth: int)
    ensures
        stack_after(seq![step], depth) == step_effect(step, depth),
{
    assert(seq![step].drop_last() =~= Seq::<Instr>::empty());
    assert(stack_after(seq![step].drop_last(), depth) == Some(depth));
}

/// A found name lies in the list, at the place given.
pub proof fn lemma_find(names: Seq<Seq<char>>, name: Seq<char>, from: int)
    requires
        0 <= from,
    ensures
        find(names, name, from) matches Some(i) ==> from <= i < names.len() && names[i] == name,
    decreases names.len() - from,
{
    if from < names.len() && names[from] != name {
        lemma_find(names, name, from + 1);
    }
}

/// The layer count that a tree's repeated variables agree on is the layer
/// count of each of them, and of those read before.
pub proof fn lemma_layers_in(t: Tree, ctx: Bindings, expected: Option<int>)
    requires
        ctx.layers.len() == ctx.repeated.len(),
    ensures
        layers_in(t, ctx, expected) matches Ok(seen) ==> {
            &&& expected is Some ==> seen == expected
            &&& t.has_repeated_var() ==> seen is Some
            &&& !t.has_repeated_var() ==> seen == expected
            &&& seen matches Some(n) ==> agreed(t, ctx, n)
        },
    decreases t,
{
    match t {
        Tree::RepeatedVar(name) => {
            lemma_find(ctx.repeated, name, 0);
        },
        Tree::Op(l, _, r) => {
            lemma_layers_in(*l, ctx, expected);
            if let Ok(seen) = layers_in(*l, ctx, expected) {
                lemma_layers_in(*r, ctx, seen);
                if let Ok(Some(n)) = layers_in(*r, ctx, seen) {
                    if seen is None {
                        lemma_agreed_without(*l, ctx, n);
                    }
                }
            }
        },
        Tree::Index(e) => lemma_layers_in(*e, ctx, expected),
        Tree::Dielectric(e) => lemma_layers_in(*e, ctx, expected),
        Tree::KramersKronig(e) => lemma_layers_in(*e, ctx, expected),
        Tree::Sum(e) => lemma_layers_in(*e, ctx, expected),
        Tree::Func(_, e) => lemma_layers_in(*e, ctx, expected),
        _ => {},
    }
}

/// Whether every repeated variable of `t` is a repeated parameter of `ctx`
/// with `n` layers.
pub open spec fn agreed(t: Tree, ctx: Bindings, n: int) -> bool
    decreases t,
{
    match t {
        Tree::RepeatedVar(name) => find(ctx.repeated, name, 0) matches Some(j) && ctx.layers[j]
            == n,
        Tree::Op(l, _, r) => agreed(*l, ctx, n) && agreed(*r, ctx, n),
        Tree::Index(e) => agreed(*e, ctx, n),
        Tree::Dielectric(e) => agreed(*e, ctx, n),
        Tree::KramersKronig(e) => agreed(*e, ctx, n),
        Tree::Sum(e) => agreed(*e, ctx, n),
        Tree::Func(_, e) => agreed(*e, ctx, n),
        _ => true,
    }
}

proof fn lemma_agreed_without(t: Tree, ctx: Bindings, n: int)
    requires
        !t.has_repeated_var(),
    ensures
        agreed(t, ctx, n),
    decreases t,
{
    match t {
        Tree::Op(l, _, r) => {
            lemma_agreed_without(*l, ctx, n);
            lemma_agreed_without(*r, ctx, n);
        },
        Tree::Index(e) => lemma_agreed_without(*e, ctx, n),
        Tree::Dielectric(e) => lemma_agreed_without(*e, ctx, n),
        Tree::KramersKronig(e) => lemma_agreed_without(*e, ctx, n),
        Tree::Sum(e) => lemma_agreed_without(*e, ctx, n),
        Tree::Func(_, e) => lemma_agreed_without(*e, ctx, n),
        _ => {},
    }
}

/// Whether a plan can be run as it stands: on an empty stack no step finds
/// too few operands, exactly one array is left at the end, and every
/// parameter that is pushed is one that the caller holds.
pub open spec fn runnable(code: Seq<Instr>, ctx: Bindings) -> bool {
    stack_after(code, 0) == Some(1int) && in_range(code, ctx)
}

/// Every plan leaves exactly one more array on the stack than it found,
/// whatever the height of the stack, and pushes only parameters that exist.
/// Inside a sum this holds for each layer below the count that the body's
/// repeated variables agree on.
pub proof fn lemma_plan_runs(t: Tree, ctx: Bindings, layer: Option<int>, depth: int)
    requires
        ctx.layers.len() == ctx.repeated.len(),
        depth >= 0,
        compile(t, ctx, layer) is Ok,
        layer matches Some(i) ==> 0 <= i && exists|n: int| i < n && agreed(t, ctx, n),
    ensures
        stack_after(compile(t, ctx, layer)->Ok_0, depth) == Some(depth + 1),
        in_range(compile(t, ctx, layer)->Ok_0, ctx),
    decreases t, 0nat, 0nat,
{
    let code = compile(t, ctx, layer)->Ok_0;
    match t {
        Tree::Number(n) => {
            lemma_stack_after_one(Instr::Number(n), depth);
        },
        Tree::Constant(c) => {
            lemma_stack_after_one(Instr::Constant(c), depth);
        },
        Tree::Var(name) => {
            lemma_find(ctx.singles, name, 0);
            lemma_stack_after_one(code[0], depth);
        },
        Tree::RepeatedVar(name) => {
            lemma_find(ctx.repeated, name, 0);
            lemma_stack_after_one(code[0], depth);
        },
        Tree::Op(l, op, r) => {
            let left = compile(*l, ctx, layer)->Ok_0;
            let right = compile(*r, ctx, layer)->Ok_0;
            if let Some(i) = layer {
                let n = choose|n: int| i < n && agreed(t, ctx, n);
                assert(i < n && agreed(*l, ctx, n) && agreed(*r, ctx, n));
            }
            lemma_plan_runs(*l, ctx, layer, depth);
            lemma_plan_runs(*r, ctx, layer, depth + 1);
            lemma_stack_after_concat(left, right, depth);
            lemma_stack_after_concat(left + right, seq![Instr::Binary(op)], depth);
            lemma_stack_after_one(Instr::Binary(op), depth + 2);
        },
        Tree::Func(f, e) => {
            let arg = compile(*e, ctx, layer)->Ok_0;
            if let Some(i) = layer {
                let n = choose|n: int| i < n && agreed(t, ctx, n);
                assert(i < n && agreed(*e, ctx, n));
            }
            lemma_plan_runs(*e, ctx, layer, depth);
            lemma_stack_after_concat(arg, seq![Instr::Apply(f)], depth);
            lemma_stack_after_one(Instr::Apply(f), depth + 1);
        },
        Tree::Dielectric(e) => {
            if let Some(i) = layer {
                let n = choose|n: int| i < n && agreed(t, ctx, n);
                assert(i < n && agreed(*e, ctx, n));
            }
            lemma_plan_runs(*e, ctx, layer, depth);
        },
        Tree::Index(e) => {
            let arg = compile(*e, ctx, layer)->Ok_0;
            if let Some(i) = layer {
                let n = choose|n: int| i < n && agreed(t, ctx, n);
                assert(i < n && agreed(*e, ctx, n));
            }
            lemma_plan_runs(*e, ctx, layer, depth);
            lemma_stack_after_concat(arg, seq![Instr::Square], depth);
            lemma_stack_after_one(Instr::Square, depth + 1);
        },
        Tree::KramersKronig(_) => {},
        Tree::Sum(body) => {
            let count = layer_count(*body, ctx)->Ok_0;
            lemma_layers_in(*body, ctx, None);
            if layers_in(*body, ctx, None) == Ok::<Option<int>, Failure>(None) {
                lemma_agreed_without(*body, ctx, count);
            }
            lemma_layers_run(*body, ctx, count, count, depth);
        },
    }
}

/// The plan for the first `count` layers of a sum leaves one more array on
/// the stack than it found and pushes only parameters that exist, where the
/// body's repeated variables agree on `total` layers and `count` is no more.
pub proof fn lemma_layers_run(body: Tree, ctx: Bindings, count: int, total: int, depth: int)
    requires
        ctx.layers.len() == ctx.repeated.len(),
        depth >= 0,
        count <= total,
        agreed(body, ctx, total),
        compile_layers(body, ctx, count) is Ok,
    ensures
        stack_after(compile_layers(body, ctx, count)->Ok_0, depth) == Some(depth + 1),
        in_range(compile_layers(body, ctx, count)->Ok_0, ctx),
    decreases body, 1nat, count,
{
    if count <= 0 {
        lemma_stack_after_one(Instr::Zero, depth);
    } else {
        let before = compile_layers(body, ctx, count - 1)->Ok_0;
        let term = compile(body, ctx, Some(count - 1))->Ok_0;
        let add = seq![Instr::Binary(Opcode::Add)];
        lemma_layers_run(body, ctx, count - 1, total, depth);
        assert(count - 1 < total && agreed(body, ctx, total));
        lemma_plan_runs(body, ctx, Some(count - 1), depth + 1);
        lemma_stack_after_concat(before, term, depth);
        lemma_stack_after_concat(before + term, add, depth);
        lemma_stack_after_one(Instr::Binary(Opcode::Add), depth + 2);
    }
}

/// The plan of every formula that can be evaluated is runnable.
pub proof fn lemma_plan_runnable(t: Tree, ctx: Bindings)
    requires
        ctx.layers.len() == ctx.repeated.len(),
        compile(t, ctx, None) is Ok,
    ensures
        runnable(compile(t, ctx, None)->Ok_0, ctx),
{
    lemma_plan_runs(t, ctx, None, 0);
}

} // verus!
