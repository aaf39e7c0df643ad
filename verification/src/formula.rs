//! The whole way from formula text to an evaluation plan.
use crate::eval::compile;
use crate::eval::Bindings;
use crate::eval::EvalError;
use crate::eval::ExprParams;
use crate::eval::Failure;
use crate::eval::Instr;
use crate::eval::Plan;
use crate::stack::runnable;
use crate::parser::parse_ast;
use crate::parser::parse_formula;
use crate::parser::ParseError;
use crate::parser::Rejection;
use vstd::prelude::*;

verus! {

/// Why a formula gave no plan, as the contracts see it.
pub enum Refusal {
    /// The text is no formula.
    Parse(Rejection),
    /// The formula cannot be evaluated with the names given.
    Eval(Failure),
}

/// Why a formula gave no plan.
#[derive(PartialEq, Eq, Debug)]
pub enum FormulaError {
    /// The text is no formula.
    Parse(ParseError),
    /// The formula cannot be evaluated with the names given.
    Eval(EvalError),
}

impl View for FormulaError {
    type V = Refusal;

    open spec fn view(&self) -> Refusal {
        match self {
            FormulaError::Parse(e) => Refusal::Parse(e@),
            FormulaError::Eval(e) => Refusal::Eval(e@),
        }
    }
}

/// What `parse` owes for the text `formula` and the names `ctx`: the plan of
/// the parsed tree, or the parse error, or else the evaluation error.
pub open spec fn plan_of(formula: Seq<char>, ctx: Bindings) -> Result<Seq<Instr>, Refusal> {
    match parse_formula(formula) {
        Err(rejection) => Err(Refusal::Parse(rejection)),
        Ok(tree) => match compile(tree, ctx, None) {
            Ok(code) => Ok(code),
            Err(failure) => Err(Refusal::Eval(failure)),
        },
    }
}

/// Parses `formula` and lays out its evaluation for the names in `params`.
/// A plan that is returned can be run as it stands.
pub fn parse(formula: &str, params: &ExprParams) -> (r: Result<Plan, FormulaError>)
    ensures
        match r {
            Ok(plan) => plan_of(formula@, params@) == Ok::<Seq<Instr>, Refusal>(plan@),
            Err(e) => plan_of(formula@, params@) == Err::<Seq<Instr>, Refusal>(e@),
        },
        r matches Ok(plan) ==> runnable(plan@, params@),
{
    match parse_ast(formula) {
        Err(e) => Err(FormulaError::Parse(e)),
        Ok(ast) => match ast.evaluate(params) {
            Ok(plan) => Ok(plan),
            Err(e) => Err(FormulaError::Eval(e)),
        },
    }
}

} // verus!
