//! What a formula means, and that its plan computes it.
//!
//! The library never touches a number, so the meaning of a formula is given
//! for every arithmetic at once. A `Model` says what the numbers, the
//! parameters and the operations are; `value` gives the value of a tree in a
//! model, node by node; `run` is the stack machine that a plan is written
//! for. The theorem `lemma_plan_computes` joins them: in every model, running
//! the plan of a tree leaves the value of the tree on the stack.
use crate::ast::Constant;
use crate::ast::Func;
use crate::ast::Opcode;
use crate::ast::Tree;
use crate::eval::compile;
use crate::eval::compile_layers;
use crate::eval::find;
use crate::eval::layer_count;
use crate::eval::missing_message;
use crate::eval::Bindings;
use crate::eval::Failure;
use crate::eval::Instr;
use crate::number::Numeral;
use vstd::prelude::*;

verus! {

/// An arithmetic on values of the type `V`: one value of `V` is one array
/// over the spectral axis.
#[verifier::reject_recursive_types(V)]
pub struct Model<V> {
    /// The number, at every axis position.
    pub number: spec_fn(Numeral) -> V,
    /// The constant, at every axis position.
    pub constant: spec_fn(Constant) -> V,
    /// The axis samples.
    pub axis: V,
    /// The single parameter with this index, at every axis position.
    pub single: spec_fn(int) -> V,
    /// The repeated parameter with this index in this layer, at every axis
    /// position.
    pub layer: spec_fn(int, int) -> V,
    /// Zero at every axis position.
    pub zero: V,
    /// The operation on two arrays, position by position.
    pub binary: spec_fn(Opcode, V, V) -> V,
    /// The function on an array, position by position.
    pub apply: spec_fn(Func, V) -> V,
    /// The square of an array, position by position.
    pub square: spec_fn(V) -> V,
}

/// The value of the tree `t` in the model `m`, for the names in `ctx`.
/// `layer` is the layer of the sum that `t` stands in, `None` where it stands
/// in no sum.
///
/// A number and a constant are themselves. A variable is the axis where it
/// has the axis' name, else the single parameter of its name. A repeated
/// variable is the value that the repeated parameter of its name has in the
/// layer at hand. An operation and a function are applied to the values of
/// their operands. `Dielectric` is the value below it and `Index` the square
/// of the value below it. A sum is the total of its body over all layers.
pub open spec fn value<V>(t: Tree, ctx: Bindings, layer: Option<int>, m: Model<V>) -> Result<
    V,
    Failure,
>
    decreases t, 0nat, 0nat,
{
    match t {
        Tree::Number(n) => Ok((m.number)(n)),
        Tree::Constant(c) => Ok((m.constant)(c)),
        Tree::Var(name) => {
            if name == ctx.axis {
                Ok(m.axis)
            } else {
                match find(ctx.singles, name, 0) {
                    Some(i) => Ok((m.single)(i)),
                    None => Err(Failure::MissingParameter(missing_message(name))),
                }
            }
        },
        Tree::RepeatedVar(name) => match layer {
            None => Err(Failure::RepeatedOutsideSum(name)),
            Some(i) => match find(ctx.repeated, name, 0) {
                Some(j) => Ok((m.layer)(j, i)),
                None => Err(Failure::MissingParameter(missing_message(name))),
            },
        },
        Tree::Op(l, op, r) => match value(*l, ctx, layer, m) {
            Ok(left) => match value(*r, ctx, layer, m) {
                Ok(right) => Ok((m.binary)(op, left, right)),
                Err(e) => Err(e),
            },
            Err(e) => Err(e),
        },
        Tree::Func(f, e) => match value(*e, ctx, layer, m) {
            Ok(arg) => Ok((m.apply)(f, arg)),
            Err(e) => Err(e),
        },
        Tree::Dielectric(e) => value(*e, ctx, layer, m),
        Tree::Index(e) => match value(*e, ctx, layer, m) {
            Ok(index) => Ok((m.square)(index)),
            Err(e) => Err(e),
        },
        Tree::KramersKronig(_) => Err(Failure::NotImplemented),
        Tree::Sum(body) => {
            if layer.is_some() || body.has_sum() {
                Err(Failure::NestedSum)
            } else {
                match layer_count(*body, ctx) {
                    Ok(count) => total(*body, ctx, count, m),
                    Err(e) => Err(e),
                }
            }
        },
    }
}

/// The total of `body` over the layers below `count`: zero, to which the
/// value of the body in each layer is added in turn.
pub open spec fn total<V>(body: Tree, ctx: Bindings, count: int, m: Model<V>) -> Result<V, Failure>
    decreases body, 1nat, count,
{
    if count <= 0 {
        Ok(m.zero)
    } else {
        match total(body, ctx, count - 1, m) {
            Ok(before) => match value(body, ctx, Some(count - 1), m) {
                Ok(term) => Ok((m.binary)(Opcode::Add, before, term)),
                Err(e) => Err(e),
            },
            Err(e) => Err(e),
        }
    }
}

/// The stack after one step, `None` where the step finds too few operands.
pub open spec fn perform<V>(step: Instr, stack: Seq<V>, m: Model<V>) -> Option<Seq<V>> {
    match step {
        Instr::Number(n) => Some(stack.push((m.number)(n))),
        Instr::Constant(c) => Some(stack.push((m.constant)(c))),
        Instr::Axis => Some(stack.push(m.axis)),
        Instr::Single(i) => Some(stack.push((m.single)(i))),
        Instr::Layer { param, layer } => Some(stack.push((m.layer)(param, layer))),
        Instr::Zero => Some(stack.push(m.zero)),
        Instr::Binary(op) => {
            if stack.len() >= 2 {
                Some(
                    stack.drop_last().drop_last().push(
                        (m.binary)(op, stack[stack.len() - 2], stack.last()),
                    ),
                )
            } else {
                None
            }
        },
        Instr::Apply(f) => {
            if stack.len() >= 1 {
                Some(stack.drop_last().push((m.apply)(f, stack.last())))
            } else {
                None
            }
        },
        Instr::Square => {
            if stack.len() >= 1 {
                Some(stack.drop_last().push((m.square)(stack.last())))
            } else {
                None
            }
        },
    }
}

/// The stack after the steps of `code`, run first to last on `stack`.
pub open spec fn run<V>(code: Seq<Instr>, stack: Seq<V>, m: Model<V>) -> Option<Seq<V>>
    decreases code.len(),
{
    if code.len() == 0 {
        Some(stack)
    } else {
        match run(code.drop_last(), stack, m) {
            Some(before) => perform(code.last(), before, m),
            None => None,
        }
    }
}

/// Running `a + b` is running `a` and then `b`.
pub proof fn lemma_run_concat<V>(a: Seq<Instr>, b: Seq<Instr>, stack: Seq<V>, m: Model<V>)
    ensures
        run(a + b, stack, m) == match run(a, stack, m) {
            Some(between) => run(b, between, m),
            None => None,
        },
    decreases b.len(),
{
    if b.len() == 0 {
        assert(a + b =~= a);
    } else {
        assert((a + b).drop_last() =~= a + b.drop_last());
        assert((a + b).last() == b.last());
        lemma_run_concat(a, b.drop_last(), stack, m);
    }
}

proof fn lemma_run_one<V>(step: Instr, stack: Seq<V>, m: Model<V>)
    ensures
        run(seq![step], stack, m) == perform(step, stack, m),
{
    assert(seq![step].drop_last() =~= Seq::<Instr>::empty());
    assert(run(seq![step].drop_last(), stack, m) == Some(stack));
}

/// The plan of a tree computes the value of the tree. In every model and on
/// every stack, running the plan pushes the value and leaves the rest of the
/// stack alone; and a tree has a plan exactly where it has a value, with the
/// same error where it has none.
pub proof fn lemma_plan_computes<V>(
    t: Tree,
    ctx: Bindings,
    layer: Option<int>,
    m: Model<V>,
    stack: Seq<V>,
)
    ensures
        match compile(t, ctx, layer) {
            Ok(code) => value(t, ctx, layer, m) is Ok && run(code, stack, m) == Some(
                stack.push(value(t, ctx, layer, m)->Ok_0),
            ),
            Err(e) => value(t, ctx, layer, m) == Err::<V, Failure>(e),
        },
    decreases t, 0nat, 0nat,
{
    match t {
        Tree::Number(n) => {
            lemma_run_one(Instr::Number(n), stack, m);
        },
        Tree::Constant(c) => {
            lemma_run_one(Instr::Constant(c), stack, m);
        },
        Tree::Var(name) => {
            if let Ok(code) = compile(t, ctx, layer) {
                lemma_run_one(code[0], stack, m);
            }
        },
        Tree::RepeatedVar(name) => {
            if let Ok(code) = compile(t, ctx, layer) {
                lemma_run_one(code[0], stack, m);
            }
        },
        Tree::Op(l, op, r) => {
            lemma_plan_computes(*l, ctx, layer, m, stack);
            if let Ok(left) = compile(*l, ctx, layer) {
                let a = value(*l, ctx, layer, m)->Ok_0;
                lemma_plan_computes(*r, ctx, layer, m, stack.push(a));
                if let Ok(right) = compile(*r, ctx, layer) {
                    let b = value(*r, ctx, layer, m)->Ok_0;
                    let both = stack.push(a).push(b);
                    lemma_run_concat(left, right, stack, m);
                    lemma_run_concat(left + right, seq![Instr::Binary(op)], stack, m);
                    lemma_run_one(Instr::Binary(op), both, m);
                    assert(both.drop_last().drop_last() =~= stack);
                }
            }
        },
        Tree::Func(f, e) => {
            lemma_plan_computes(*e, ctx, layer, m, stack);
            if let Ok(arg) = compile(*e, ctx, layer) {
                let a = value(*e, ctx, layer, m)->Ok_0;
                lemma_run_concat(arg, seq![Instr::Apply(f)], stack, m);
                lemma_run_one(Instr::Apply(f), stack.push(a), m);
                assert(stack.push(a).drop_last() =~= stack);
            }
        },
        Tree::Dielectric(e) => {
            lemma_plan_computes(*e, ctx, layer, m, stack);
        },
        Tree::Index(e) => {
            lemma_plan_computes(*e, ctx, layer, m, stack);
            if let Ok(arg) = compile(*e, ctx, layer) {
                let a = value(*e, ctx, layer, m)->Ok_0;
                lemma_run_concat(arg, seq![Instr::Square], stack, m);
                lemma_run_one(Instr::Square, stack.push(a), m);
                assert(stack.push(a).drop_last() =~= stack);
            }
        },
        Tree::KramersKronig(_) => {},
        Tree::Sum(body) => {
            if !(layer.is_some() || body.has_sum()) {
                if let Ok(count) = layer_count(*body, ctx) {
                    lemma_layers_compute(*body, ctx, count, m, stack);
                }
            }
        },
    }
}

/// The plan for the layers of a sum computes their total.
pub proof fn lemma_layers_compute<V>(
    body: Tree,
    ctx: Bindings,
    count: int,
    m: Model<V>,
    stack: Seq<V>,
)
    ensures
        match compile_layers(body, ctx, count) {
            Ok(code) => total(body, ctx, count, m) is Ok && run(code, stack, m) == Some(
                stack.push(total(body, ctx, count, m)->Ok_0),
            ),
            Err(e) => total(body, ctx, count, m) == Err::<V, Failure>(e),
        },
    decreases body, 1nat, count,
{
    if count <= 0 {
        lemma_run_one(Instr::Zero, stack, m);
    } else {
        lemma_layers_compute(body, ctx, count - 1, m, stack);
        if let Ok(before) = compile_layers(body, ctx, count - 1) {
            let a = total(body, ctx, count - 1, m)->Ok_0;
            lemma_plan_computes(body, ctx, Some(count - 1), m, stack.push(a));
            if let Ok(term) = compile(body, ctx, Some(count - 1)) {
                let b = value(body, ctx, Some(count - 1), m)->Ok_0;
                let both = stack.push(a).push(b);
                let add = Instr::Binary(Opcode::Add);
                lemma_run_concat(before, term, stack, m);
                lemma_run_concat(before + term, seq![add], stack, m);
                lemma_run_one(add, both, m);
                assert(both.drop_last().drop_last() =~= stack);
            }
        }
    }
}

/// The plan of a formula, run on the empty stack, leaves the value of the
/// formula and nothing else.
pub proof fn lemma_plan_gives_value<V>(t: Tree, ctx: Bindings, m: Model<V>)
    requires
        compile(t, ctx, None) is Ok,
    ensures
        value(t, ctx, None, m) is Ok,
        run(compile(t, ctx, None)->Ok_0, Seq::<V>::empty(), m) == Some(
            seq![value(t, ctx, None, m)->Ok_0],
        ),
{
    lemma_plan_computes(t, ctx, None, m, Seq::<V>::empty());
    assert(Seq::<V>::empty().push(value(t, ctx, None, m)->Ok_0) =~= seq![
        value(t, ctx, None, m)->Ok_0,
    ]);
}

/// The value of `base`, with `term` added `count` times.
pub open spec fn added<V>(base: V, term: V, count: int, m: Model<V>) -> V
    decreases count,
{
    if count <= 0 {
        base
    } else {
        (m.binary)(Opcode::Add, added(base, term, count - 1, m), term)
    }
}

/// A formula for the refractive index has the value of the same formula for
/// the dielectric function, squared, and fails where and as that one fails.
pub proof fn lemma_index_value<V>(inner: Tree, ctx: Bindings, layer: Option<int>, m: Model<V>)
    ensures
        match value(Tree::Dielectric(Box::new(inner)), ctx, layer, m) {
            Ok(eps) => value(Tree::Index(Box::new(inner)), ctx, layer, m) == Ok::<V, Failure>(
                (m.square)(eps),
            ),
            Err(e) => value(Tree::Index(Box::new(inner)), ctx, layer, m) == Err::<V, Failure>(e),
        },
{
}

/// The value of a tree that holds no repeated variable and no sum is the
/// same in every layer and outside every sum.
pub proof fn lemma_value_layer_free<V>(
    t: Tree,
    ctx: Bindings,
    a: Option<int>,
    b: Option<int>,
    m: Model<V>,
)
    requires
        !t.has_repeated_var(),
        !t.has_sum(),
    ensures
        value(t, ctx, a, m) == value(t, ctx, b, m),
    decreases t,
{
    match t {
        Tree::Op(l, _, r) => {
            lemma_value_layer_free(*l, ctx, a, b, m);
            lemma_value_layer_free(*r, ctx, a, b, m);
        },
        Tree::Index(e) => lemma_value_layer_free(*e, ctx, a, b, m),
        Tree::Dielectric(e) => lemma_value_layer_free(*e, ctx, a, b, m),
        Tree::Func(_, e) => lemma_value_layer_free(*e, ctx, a, b, m),
        _ => {},
    }
}

/// A sum whose body names no repeated variable is the body's own value, once
/// for every layer: zero, to which the value of the body is added as many
/// times as there are layers.
pub proof fn lemma_sum_value_of_constant_body<V>(body: Tree, ctx: Bindings, m: Model<V>)
    requires
        !body.has_repeated_var(),
    ensures
        value(Tree::Sum(Box::new(body)), ctx, None, m) matches Ok(sum) ==> {
            &&& layer_count(body, ctx) matches Ok(count)
            &&& count > 0 ==> value(body, ctx, None, m) is Ok
            &&& sum == added(m.zero, value(body, ctx, None, m)->Ok_0, count, m)
        },
{
    if value(Tree::Sum(Box::new(body)), ctx, None, m) is Ok {
        lemma_constant_total(body, ctx, layer_count(body, ctx)->Ok_0, m);
    }
}

proof fn lemma_constant_total<V>(body: Tree, ctx: Bindings, count: int, m: Model<V>)
    requires
        !body.has_repeated_var(),
        !body.has_sum(),
        total(body, ctx, count, m) is Ok,
    ensures
        count > 0 ==> value(body, ctx, None, m) is Ok,
        total(body, ctx, count, m)->Ok_0 == added(
            m.zero,
            value(body, ctx, None, m)->Ok_0,
            count,
            m,
        ),
    decreases count,
{
    if count > 0 {
        lemma_constant_total(body, ctx, count - 1, m);
        lemma_value_layer_free(body, ctx, Some(count - 1), None, m);
    }
}

/// A sum over no layers is zero.
pub proof fn lemma_sum_value_over_no_layers<V>(body: Tree, ctx: Bindings, m: Model<V>)
    requires
        !body.has_sum(),
        layer_count(body, ctx) == Ok::<int, Failure>(0),
    ensures
        value(Tree::Sum(Box::new(body)), ctx, None, m) == Ok::<V, Failure>(m.zero),
{
    assert(total(body, ctx, 0, m) == Ok::<V, Failure>(m.zero));
}

} // verus!
