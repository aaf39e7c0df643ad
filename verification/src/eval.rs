//! From a syntax tree and the names of the caller's parameters to an
//! evaluation plan.
//!
//! The numbers themselves never come here. The caller keeps the axis samples
//! and the parameter values and tells this module only how they are called and
//! how many layers each repeated parameter has. `Expr::evaluate` resolves every
//! name, checks every rule of the language and lays the work out as a plan: a
//! postfix program for a stack of arrays, in which a parameter is the index at
//! which the caller holds it. A numeric back end then runs the plan step by
//! step and has no decision left to take.
use crate::ast::Constant;
use crate::ast::Expr;
use crate::ast::Func;
use crate::ast::Opcode;
use crate::ast::Tree;
use crate::stack::lemma_plan_runnable;
use crate::stack::runnable;
use crate::number::Decimal;
use crate::number::Numeral;
use vstd::prelude::*;
use vstd::string::StringExecFns;

verus! {

/// The error for a construct that has no evaluation yet.
#[derive(Copy, Clone, PartialEq, Eq, Debug, Structural)]
pub struct NotImplementedError;

impl NotImplementedError {
    /// The error as a sentence.
    pub fn message(&self) -> (r: String)
        ensures
            r@ == "NotImplementedError not implemented"@,
    {
        String::from_str("NotImplementedError not implemented")
    }
}

/// The sentence that reports the parameter `name` as missing.
pub open spec fn missing_message(name: Seq<char>) -> Seq<char> {
    "The parameter "@ + name + " is missing"@
}

/// The error for a name that the caller gave no value for.
#[derive(PartialEq, Eq, Debug)]
pub struct MissingParameter {
    message: String,
}

impl View for MissingParameter {
    type V = Seq<char>;

    /// The error's sentence.
    closed spec fn view(&self) -> Seq<char> {
        self.message@
    }
}

impl Clone for MissingParameter {
    fn clone(&self) -> (r: Self)
        ensures
            r@ == self@,
    {
        MissingParameter { message: self.message.clone() }
    }
}

impl MissingParameter {
    pub fn new(parameter_name: &str) -> (r: MissingParameter)
        ensures
            r@ == missing_message(parameter_name@),
    {
        let mut message = String::from_str("The parameter ");
        message.append(parameter_name);
        message.append(" is missing");
        MissingParameter { message }
    }

    /// The error as a sentence.
    pub fn message(&self) -> (r: &str)
        ensures
            r@ == self@,
    {
        self.message.as_str()
    }
}

/// Why a formula could not be evaluated, as the contracts see it.
pub enum Failure {
    /// A name with no value; holds the sentence that names it.
    MissingParameter(Seq<char>),
    /// Repeated parameters that one sum needs differ in their number of layers.
    ShapeMismatch { expected: int, actual: int },
    /// A repeated variable that stands in no sum; holds its name.
    RepeatedOutsideSum(Seq<char>),
    /// A sum in the body of a sum.
    NestedSum,
    NotImplemented,
}

/// Why a formula could not be evaluated.
#[derive(PartialEq, Eq, Debug)]
pub enum EvalError {
    /// A name with no value.
    MissingParameter(MissingParameter),
    /// Repeated parameters that one sum needs differ in their number of layers.
    ShapeMismatch { expected: usize, actual: usize },
    /// A repeated variable that stands in no sum; holds its name.
    RepeatedOutsideSum(String),
    /// A sum in the body of a sum.
    NestedSum,
    NotImplemented(NotImplementedError),
}

impl View for EvalError {
    type V = Failure;

    open spec fn view(&self) -> Failure {
        match self {
            EvalError::MissingParameter(m) => Failure::MissingParameter(m@),
            EvalError::ShapeMismatch { expected, actual } => Failure::ShapeMismatch {
                expected: *expected as int,
                actual: *actual as int,
            },
            EvalError::RepeatedOutsideSum(name) => Failure::RepeatedOutsideSum(name@),
            EvalError::NestedSum => Failure::NestedSum,
            EvalError::NotImplemented(_) => Failure::NotImplemented,
        }
    }
}

/// A repeated parameter as the library knows it: its name, and the number of
/// values, one per layer, that the caller holds for it.
#[derive(PartialEq, Eq, Debug)]
pub struct RepeatedParam {
    pub name: String,
    pub layers: usize,
}

/// What the caller binds a formula's names to. Only the names are here; the
/// position of a name in its list is where the caller keeps the value.
#[derive(PartialEq, Eq, Debug)]
pub struct ExprParams {
    /// The name of the spectral axis.
    pub x_axis_name: String,
    /// The names of the parameters that have one value each.
    pub single_params: Vec<String>,
    /// The parameters that have one value per layer.
    pub rep_params: Vec<RepeatedParam>,
}

/// The mathematical content of `ExprParams`.
pub struct Bindings {
    pub axis: Seq<char>,
    pub singles: Seq<Seq<char>>,
    pub repeated: Seq<Seq<char>>,
    pub layers: Seq<int>,
}

impl View for ExprParams {
    type V = Bindings;

    open spec fn view(&self) -> Bindings {
        Bindings {
            axis: self.x_axis_name@,
            singles: Seq::new(self.single_params@.len(), |i: int| self.single_params@[i]@),
            repeated: Seq::new(self.rep_params@.len(), |i: int| self.rep_params@[i].name@),
            layers: Seq::new(self.rep_params@.len(), |i: int| self.rep_params@[i].layers as int),
        }
    }
}

/// The first position at or after `from` at which `names` holds `name`.
pub open spec fn find(names: Seq<Seq<char>>, name: Seq<char>, from: int) -> Option<int>
    decreases names.len() - from,
{
    if !(0 <= from < names.len()) {
        None
    } else if names[from] == name {
        Some(from)
    } else {
        find(names, name, from + 1)
    }
}

/// One step of a plan, as the contracts see it. A plan runs on a stack of
/// arrays over the axis.
pub enum Instr {
    /// Push the number at every axis position.
    Number(Numeral),
    /// Push the constant at every axis position.
    Constant(Constant),
    /// Push the axis samples.
    Axis,
    /// Push the value of the single parameter with this index at every position.
    Single(int),
    /// Push the value that the repeated parameter `param` has in layer `layer`.
    Layer { param: int, layer: int },
    /// Push zero at every position.
    Zero,
    /// Pop the right operand, then the left one; push left `op` right.
    Binary(Opcode),
    /// Replace the top of the stack by the function applied to it.
    Apply(Func),
    /// Replace the top of the stack by its square.
    Square,
}

/// One step of a plan. A plan runs on a stack of arrays over the axis.
#[derive(PartialEq, Eq, Debug)]
pub enum Step {
    /// Push the number at every axis position.
    Number(Decimal),
    /// Push the constant at every axis position.
    Constant(Constant),
    /// Push the axis samples.
    Axis,
    /// Push the value of the single parameter with this index at every position.
    Single(usize),
    /// Push the value that the repeated parameter `param` has in layer `layer`.
    Layer { param: usize, layer: usize },
    /// Push zero at every position.
    Zero,
    /// Pop the right operand, then the left one; push left `op` right.
    Binary(Opcode),
    /// Replace the top of the stack by the function applied to it.
    Apply(Func),
    /// Replace the top of the stack by its square.
    Square,
}

impl View for Step {
    type V = Instr;

    open spec fn view(&self) -> Instr {
        match self {
            Step::Number(d) => Instr::Number(d@),
            Step::Constant(c) => Instr::Constant(*c),
            Step::Axis => Instr::Axis,
            Step::Single(i) => Instr::Single(*i as int),
            Step::Layer { param, layer } => Instr::Layer {
                param: *param as int,
                layer: *layer as int,
            },
            Step::Zero => Instr::Zero,
            Step::Binary(op) => Instr::Binary(*op),
            Step::Apply(f) => Instr::Apply(*f),
            Step::Square => Instr::Square,
        }
    }
}

/// The steps of `v` as the contracts see them.
pub open spec fn code_of(v: Seq<Step>) -> Seq<Instr> {
    Seq::new(v.len(), |i: int| v[i]@)
}

/// An evaluation plan: the steps to run, first to last, on an empty stack.
/// What is left on the stack at the end is the value of the formula.
#[derive(PartialEq, Eq, Debug)]
pub struct Plan {
    pub steps: Vec<Step>,
}

impl View for Plan {
    type V = Seq<Instr>;

    open spec fn view(&self) -> Seq<Instr> {
        code_of(self.steps@)
    }
}

/// The layer count that the repeated variables of `t` ask for, read from left
/// to right. `expected` is the count that the variables read before agreed on,
/// `None` where there was none yet. A variable that `ctx` does not hold is a
/// missing parameter; one with another count than `expected` is a mismatch.
pub open spec fn layers_in(t: Tree, ctx: Bindings, expected: Option<int>) -> Result<
    Option<int>,
    Failure,
>
    decreases t,
{
    match t {
        Tree::RepeatedVar(name) => match find(ctx.repeated, name, 0) {
            None => Err(Failure::MissingParameter(missing_message(name))),
            Some(j) => match expected {
                Some(n) if n != ctx.layers[j] => Err(
                    Failure::ShapeMismatch { expected: n, actual: ctx.layers[j] },
                ),
                _ => Ok(Some(ctx.layers[j])),
            },
        },
        Tree::Op(l, _, r) => match layers_in(*l, ctx, expected) {
            Ok(seen) => layers_in(*r, ctx, seen),
            Err(e) => Err(e),
        },
        Tree::Index(e) => layers_in(*e, ctx, expected),
        Tree::Dielectric(e) => layers_in(*e, ctx, expected),
        Tree::KramersKronig(e) => layers_in(*e, ctx, expected),
        Tree::Sum(e) => layers_in(*e, ctx, expected),
        Tree::Func(_, e) => layers_in(*e, ctx, expected),
        _ => Ok(expected),
    }
}

/// The layer count that the counts `layers[from..]` share with `expected`.
pub open spec fn shared_layers(layers: Seq<int>, from: int, expected: Option<int>) -> Result<
    Option<int>,
    Failure,
>
    decreases layers.len() - from,
{
    if !(0 <= from < layers.len()) {
        Ok(expected)
    } else {
        match expected {
            Some(n) if n != layers[from] => Err(
                Failure::ShapeMismatch { expected: n, actual: layers[from] },
            ),
            _ => shared_layers(layers, from + 1, Some(layers[from])),
        }
    }
}

/// Over how many layers a sum with the body `body` runs.
///
/// It is the layer count that the repeated parameters named in the body
/// share. A body that names none runs once for each layer of the context: the
/// count that all repeated parameters of `ctx` share, zero where `ctx` has
/// none.
pub open spec fn layer_count(body: Tree, ctx: Bindings) -> Result<int, Failure> {
    match layers_in(body, ctx, None) {
        Err(e) => Err(e),
        Ok(Some(n)) => Ok(n),
        Ok(None) => match shared_layers(ctx.layers, 0, None) {
            Err(e) => Err(e),
            Ok(Some(n)) => Ok(n),
            Ok(None) => Ok(0),
        },
    }
}

/// The plan for `t`. `layer` is the layer of the sum that `t` stands in,
/// `None` where it stands in no sum.
pub open spec fn compile(t: Tree, ctx: Bindings, layer: Option<int>) -> Result<
    Seq<Instr>,
    Failure,
>
    decreases t, 0nat, 0nat,
{
    match t {
        Tree::Number(n) => Ok(seq![Instr::Number(n)]),
        Tree::Constant(c) => Ok(seq![Instr::Constant(c)]),
        Tree::Var(name) => {
            if name == ctx.axis {
                Ok(seq![Instr::Axis])
            } else {
                match find(ctx.singles, name, 0) {
                    Some(i) => Ok(seq![Instr::Single(i)]),
                    None => Err(Failure::MissingParameter(missing_message(name))),
                }
            }
        },
        Tree::RepeatedVar(name) => match layer {
            None => Err(Failure::RepeatedOutsideSum(name)),
            Some(i) => match find(ctx.repeated, name, 0) {
                Some(j) => Ok(seq![Instr::Layer { param: j, layer: i }]),
                None => Err(Failure::MissingParameter(missing_message(name))),
            },
        },
        Tree::Op(l, op, r) => match compile(*l, ctx, layer) {
            Ok(left) => match compile(*r, ctx, layer) {
                Ok(right) => Ok(left + right + seq![Instr::Binary(op)]),
                Err(e) => Err(e),
            },
            Err(e) => Err(e),
        },
        Tree::Func(f, e) => match compile(*e, ctx, layer) {
            Ok(arg) => Ok(arg + seq![Instr::Apply(f)]),
            Err(e) => Err(e),
        },
        Tree::Dielectric(e) => compile(*e, ctx, layer),
        Tree::Index(e) => match compile(*e, ctx, layer) {
            Ok(index) => Ok(index + seq![Instr::Square]),
            Err(e) => Err(e),
        },
        Tree::KramersKronig(_) => Err(Failure::NotImplemented),
        Tree::Sum(body) => {
            if layer.is_some() || body.has_sum() {
                Err(Failure::NestedSum)
            } else {
                match layer_count(*body, ctx) {
                    Ok(count) => compile_layers(*body, ctx, count),
                    Err(e) => Err(e),
                }
            }
        },
    }
}

/// The plan for the first `count` layers of a sum with the body `body`: zero,
/// and then for each layer in turn the body's plan in that layer and an
/// addition.
pub open spec fn compile_layers(body: Tree, ctx: Bindings, count: int) -> Result<
    Seq<Instr>,
    Failure,
>
    decreases body, 1nat, count,
{
    if count <= 0 {
        Ok(seq![Instr::Zero])
    } else {
        match compile_layers(body, ctx, count - 1) {
            Ok(before) => match compile(body, ctx, Some(count - 1)) {
                Ok(term) => Ok(before + term + seq![Instr::Binary(Opcode::Add)]),
                Err(e) => Err(e),
            },
            Err(e) => Err(e),
        }
    }
}

/// Looks `name` up in `names`.
fn position(names: &Vec<String>, name: &String) -> (r: Option<usize>)
    ensures
        match r {
            Some(i) => i < names.len() && find(
                Seq::new(names@.len(), |k: int| names@[k]@),
                name@,
                0,
            ) == Some(i as int),
            None => find(Seq::new(names@.len(), |k: int| names@[k]@), name@, 0).is_none(),
        },
{
    let ghost all = Seq::new(names@.len(), |k: int| names@[k]@);
    let mut i: usize = 0;
    while i < names.len()
        invariant
            i <= names.len(),
            all == Seq::new(names@.len(), |k: int| names@[k]@),
            find(all, name@, 0) == find(all, name@, i as int),
        decreases names.len() - i,
    {
        if names[i] == *name {
            return Some(i);
        }
        i += 1;
    }
    None
}

impl ExprParams {
    /// Looks `name` up among the repeated parameters.
    fn repeated_position(&self, name: &String) -> (r: Option<usize>)
        ensures
            match r {
                Some(i) => i < self.rep_params.len() && find(self@.repeated, name@, 0) == Some(
                    i as int,
                ),
                None => find(self@.repeated, name@, 0).is_none(),
            },
    {
        let mut i: usize = 0;
        while i < self.rep_params.len()
            invariant
                i <= self.rep_params.len(),
                find(self@.repeated, name@, 0) == find(self@.repeated, name@, i as int),
            decreases self.rep_params.len() - i,
        {
            if self.rep_params[i].name == *name {
                return Some(i);
            }
            i += 1;
        }
        None
    }

    /// The layer count that all repeated parameters share.
    fn shared(&self) -> (r: Result<Option<usize>, EvalError>)
        ensures
            match r {
                Ok(Some(n)) => shared_layers(self@.layers, 0, None) == Ok::<Option<int>, Failure>(
                    Some(n as int),
                ),
                Ok(None) => shared_layers(self@.layers, 0, None) == Ok::<Option<int>, Failure>(
                    None,
                ),
                Err(e) => shared_layers(self@.layers, 0, None) == Err::<Option<int>, Failure>(e@),
            },
    {
        let mut expected: Option<usize> = None;
        let mut i: usize = 0;
        while i < self.rep_params.len()
            invariant
                i <= self.rep_params.len(),
                shared_layers(self@.layers, 0, None) == shared_layers(
                    self@.layers,
                    i as int,
                    match expected {
                        Some(n) => Some(n as int),
                        None => None,
                    },
                ),
            decreases self.rep_params.len() - i,
        {
            let here = self.rep_params[i].layers;
            match expected {
                Some(n) => {
                    if n != here {
                        return Err(EvalError::ShapeMismatch { expected: n, actual: here });
                    }
                },
                None => {},
            }
            expected = Some(here);
            i += 1;
        }
        Ok(expected)
    }
}

/// The count `n` as the contracts see it.
pub open spec fn count_of(n: Option<usize>) -> Option<int> {
    match n {
        Some(n) => Some(n as int),
        None => None,
    }
}

impl Expr {
    /// Whether a sum occurs anywhere in the expression.
    pub fn has_sum(&self) -> (r: bool)
        ensures
            r == self@.has_sum(),
        decreases self,
    {
        match self {
            Expr::Op(l, _, r) => l.has_sum() || r.has_sum(),
            Expr::Index(e) => e.has_sum(),
            Expr::Dielectric(e) => e.has_sum(),
            Expr::KramersKronig(e) => e.has_sum(),
            Expr::Sum(_) => true,
            Expr::Func(_, e) => e.has_sum(),
            _ => false,
        }
    }

    fn layers_in(&self, params: &ExprParams, expected: Option<usize>) -> (r: Result<
        Option<usize>,
        EvalError,
    >)
        ensures
            match r {
                Ok(n) => layers_in(self@, params@, count_of(expected)) == Ok::<
                    Option<int>,
                    Failure,
                >(count_of(n)),
                Err(e) => layers_in(self@, params@, count_of(expected)) == Err::<
                    Option<int>,
                    Failure,
                >(e@),
            },
        decreases self,
    {
        match self {
            Expr::RepeatedVar(name) => match params.repeated_position(name) {
                None => Err(EvalError::MissingParameter(MissingParameter::new(name.as_str()))),
                Some(j) => {
                    let here = params.rep_params[j].layers;
                    match expected {
                        Some(n) => {
                            if n != here {
                                return Err(EvalError::ShapeMismatch { expected: n, actual: here });
                            }
                        },
                        None => {},
                    }
                    Ok(Some(here))
                },
            },
            Expr::Op(l, _, r) => match l.layers_in(params, expected) {
                Ok(seen) => r.layers_in(params, seen),
                Err(e) => Err(e),
            },
            Expr::Index(e) => e.layers_in(params, expected),
            Expr::Dielectric(e) => e.layers_in(params, expected),
            Expr::KramersKronig(e) => e.layers_in(params, expected),
            Expr::Sum(e) => e.layers_in(params, expected),
            Expr::Func(_, e) => e.layers_in(params, expected),
            _ => Ok(expected),
        }
    }

    /// Over how many layers a sum with this body runs.
    fn layer_count(&self, params: &ExprParams) -> (r: Result<usize, EvalError>)
        ensures
            match r {
                Ok(n) => layer_count(self@, params@) == Ok::<int, Failure>(n as int),
                Err(e) => layer_count(self@, params@) == Err::<int, Failure>(e@),
            },
    {
        match self.layers_in(params, None) {
            Err(e) => Err(e),
            Ok(Some(n)) => Ok(n),
            Ok(None) => match params.shared() {
                Err(e) => Err(e),
                Ok(Some(n)) => Ok(n),
                Ok(None) => Ok(0),
            },
        }
    }

    /// Appends the plan for the expression to `out`. After an error `out`
    /// holds nothing of use.
    fn compile_into(&self, params: &ExprParams, layer: Option<usize>, out: &mut Vec<Step>) -> (r:
        Result<(), EvalError>)
        ensures
            match r {
                Ok(_) => compile(self@, params@, count_of(layer)) is Ok && code_of(final(out)@)
                    == code_of(old(out)@) + compile(self@, params@, count_of(layer))->Ok_0,
                Err(e) => compile(self@, params@, count_of(layer)) == Err::<Seq<Instr>, Failure>(
                    e@,
                ),
            },
        decreases self, 0nat, 0nat,
    {
        let ghost before = code_of(out@);
        match self {
            Expr::Number(d) => {
                out.push(Step::Number(d.clone()));
                assert(code_of(out@) =~= before + seq![Instr::Number(d@)]);
                Ok(())
            },
            Expr::Constant(c) => {
                out.push(Step::Constant(*c));
                assert(code_of(out@) =~= before + seq![Instr::Constant(*c)]);
                Ok(())
            },
            Expr::Var(name) => {
                if *name == params.x_axis_name {
                    out.push(Step::Axis);
                    assert(code_of(out@) =~= before + seq![Instr::Axis]);
                    Ok(())
                } else {
                    match position(&params.single_params, name) {
                        Some(i) => {
                            out.push(Step::Single(i));
                            assert(code_of(out@) =~= before + seq![Instr::Single(i as int)]);
                            Ok(())
                        },
                        None => Err(
                            EvalError::MissingParameter(MissingParameter::new(name.as_str())),
                        ),
                    }
                }
            },
            Expr::RepeatedVar(name) => match layer {
                None => Err(EvalError::RepeatedOutsideSum(name.clone())),
                Some(i) => match params.repeated_position(name) {
                    Some(j) => {
                        out.push(Step::Layer { param: j, layer: i });
                        assert(code_of(out@) =~= before + seq![
                            Instr::Layer { param: j as int, layer: i as int },
                        ]);
                        Ok(())
                    },
                    None => Err(EvalError::MissingParameter(MissingParameter::new(name.as_str()))),
                },
            },
            Expr::Op(l, op, r) => {
                match l.compile_into(params, layer, out) {
                    Ok(_) => {},
                    Err(e) => {
                        return Err(e);
                    },
                }
                match r.compile_into(params, layer, out) {
                    Ok(_) => {},
                    Err(e) => {
                        return Err(e);
                    },
                }
                let ghost operands = code_of(out@);
                out.push(Step::Binary(*op));
                assert(code_of(out@) =~= operands.push(Instr::Binary(*op)));
                assert(code_of(out@) =~= before + (compile(l@, params@, count_of(layer))->Ok_0
                    + compile(r@, params@, count_of(layer))->Ok_0 + seq![Instr::Binary(*op)]));
                Ok(())
            },
            Expr::Func(f, e) => {
                match e.compile_into(params, layer, out) {
                    Ok(_) => {},
                    Err(e) => {
                        return Err(e);
                    },
                }
                let ghost operand = code_of(out@);
                out.push(Step::Apply(*f));
                assert(code_of(out@) =~= operand.push(Instr::Apply(*f)));
                assert(code_of(out@) =~= before + (compile(e@, params@, count_of(layer))->Ok_0
                    + seq![Instr::Apply(*f)]));
                Ok(())
            },
            Expr::Dielectric(e) => e.compile_into(params, layer, out),
            Expr::Index(e) => {
                match e.compile_into(params, layer, out) {
                    Ok(_) => {},
                    Err(e) => {
                        return Err(e);
                    },
                }
                let ghost operand = code_of(out@);
                out.push(Step::Square);
                assert(code_of(out@) =~= operand.push(Instr::Square));
                assert(code_of(out@) =~= before + (compile(e@, params@, count_of(layer))->Ok_0
                    + seq![Instr::Square]));
                Ok(())
            },
            Expr::KramersKronig(_) => Err(EvalError::NotImplemented(NotImplementedError)),
            Expr::Sum(body) => {
                if layer.is_some() || body.has_sum() {
                    return Err(EvalError::NestedSum);
                }
                let count = match body.layer_count(params) {
                    Ok(count) => count,
                    Err(e) => {
                        return Err(e);
                    },
                };
                body.compile_layers_into(params, count, out)
            },
        }
    }

    /// Appends the plan for the first `count` layers of a sum with this body
    /// to `out`.
    fn compile_layers_into(&self, params: &ExprParams, count: usize, out: &mut Vec<Step>) -> (r:
        Result<(), EvalError>)
        ensures
            match r {
                Ok(_) => compile_layers(self@, params@, count as int) is Ok && code_of(
                    final(out)@,
                ) == code_of(old(out)@) + compile_layers(self@, params@, count as int)->Ok_0,
                Err(e) => compile_layers(self@, params@, count as int) == Err::<
                    Seq<Instr>,
                    Failure,
                >(e@),
            },
        decreases self, 1nat, count,
    {
        let ghost before = code_of(out@);
        out.push(Step::Zero);
        assert(code_of(out@) =~= before + seq![Instr::Zero]);
        let mut i: usize = 0;
        while i < count
            invariant
                i <= count,
                compile_layers(self@, params@, i as int) is Ok,
                code_of(out@) == before + compile_layers(self@, params@, i as int)->Ok_0,
            decreases count - i,
        {
            match self.compile_into(params, Some(i), out) {
                Ok(_) => {},
                Err(e) => {
                    proof {
                        assert(compile_layers(self@, params@, i + 1) == Err::<
                            Seq<Instr>,
                            Failure,
                        >(e@));
                        lemma_layers_fail(self@, params@, i + 1, count as int);
                    }
                    return Err(e);
                },
            }
            let ghost term = code_of(out@);
            out.push(Step::Binary(Opcode::Add));
            assert(code_of(out@) =~= term.push(Instr::Binary(Opcode::Add)));
            i += 1;
            assert(code_of(out@) =~= before + (compile_layers(self@, params@, i - 1)->Ok_0
                + compile(self@, params@, Some(i - 1))->Ok_0 + seq![Instr::Binary(Opcode::Add)]));
        }
        Ok(())
    }

    /// Lays out the evaluation of the expression for the names in `params`.
    ///
    /// The result is the plan that `compile` gives, or the error that it
    /// gives. In short: a number, a constant, the axis and a parameter are
    /// pushed; an operation follows its operands; `Index` squares what is
    /// below it and `Dielectric` adds nothing; a sum is zero plus its body in
    /// every layer; `KramersKronig` is not implemented. A plan that is
    /// returned can be run as it stands, and run in any arithmetic it leaves
    /// the value of the expression: see `semantics::lemma_plan_computes`.
    pub fn evaluate(&self, params: &ExprParams) -> (r: Result<Plan, EvalError>)
        ensures
            match r {
                Ok(plan) => compile(self@, params@, None) == Ok::<Seq<Instr>, Failure>(plan@),
                Err(e) => compile(self@, params@, None) == Err::<Seq<Instr>, Failure>(e@),
            },
            r matches Ok(plan) ==> runnable(plan@, params@),
    {
        proof {
            if compile(self@, params@, None) is Ok {
                lemma_plan_runnable(self@, params@);
            }
        }
        let mut steps: Vec<Step> = Vec::new();
        match self.compile_into(params, None, &mut steps) {
            Ok(_) => {
                assert(code_of(steps@) =~= compile(self@, params@, None)->Ok_0);
                Ok(Plan { steps })
            },
            Err(e) => Err(e),
        }
    }
}

/// Where the layers up to `failed` cannot be laid out, no larger number of
/// layers can, and the error is the same.
pub proof fn lemma_layers_fail(body: Tree, ctx: Bindings, failed: int, count: int)
    requires
        0 < failed <= count,
        compile_layers(body, ctx, failed) is Err,
    ensures
        compile_layers(body, ctx, count) == compile_layers(body, ctx, failed),
    decreases count - failed,
{
    if failed < count {
        lemma_layers_fail(body, ctx, failed, count - 1);
    }
}

} // verus!
