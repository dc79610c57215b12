//! The base evaluable unit: a constant value or a variable reference,
//! resolved against a context.

use crate::language::context::{spec_lookup, wf_context, Context};
use crate::language::error::{Error, SpecError};
use crate::language::value::{clone_value, view_call_result, view_value, wf_value, SpecValue, Value};
use vstd::prelude::*;

verus! {

/// A leaf of an expression: a literal value or a variable name.
#[derive(Debug, PartialEq)]
pub enum Term {
    Constant(Value),
    Variable(String),
}

/// The model of a term.
pub enum SpecTerm {
    Constant(SpecValue),
    Variable(Seq<char>),
}

/// The model of one term.
pub open spec fn view_term(t: Term) -> SpecTerm {
    match t {
        Term::Constant(v) => SpecTerm::Constant(view_value(v)),
        Term::Variable(name) => SpecTerm::Variable(name@),
    }
}

impl DeepView for Term {
    type V = SpecTerm;

    open spec fn deep_view(&self) -> SpecTerm {
        view_term(*self)
    }
}

/// Validity of a term: a constant holds a valid value.
pub open spec fn wf_term(t: Term) -> bool {
    match t {
        Term::Constant(v) => wf_value(v),
        Term::Variable(_) => true,
    }
}

/// What evaluating a term returns: a constant returns itself, a variable
/// the value bound to its name, or an undefined-variable error when the
/// name is absent.
pub open spec fn spec_eval_term(
    t: SpecTerm,
    ctx: Seq<(Seq<char>, SpecValue)>,
) -> Result<SpecValue, SpecError> {
    match t {
        SpecTerm::Constant(v) => Ok(v),
        SpecTerm::Variable(name) => match spec_lookup(ctx, name) {
            Some(v) => Ok(v),
            None => Err(SpecError::UndefinedVariable(name)),
        },
    }
}

impl Term {
    /// A constant term.
    pub fn constant(value: Value) -> (r: Term)
        ensures
            r == Term::Constant(value),
    {
        Term::Constant(value)
    }

    /// A variable term.
    pub fn variable(variable: String) -> (r: Term)
        ensures
            r == Term::Variable(variable),
    {
        Term::Variable(variable)
    }

    /// Evaluates the term against a context.
    pub fn evaluate(&self, context: &Context) -> (r: Result<Value, Error>)
        requires
            wf_term(*self),
            wf_context(context),
        ensures
            view_call_result(r) == spec_eval_term(self.deep_view(), context.deep_view()),
            r is Ok ==> wf_value(r->Ok_0),
    {
        match self {
            Term::Constant(v) => Ok(clone_value(v)),
            Term::Variable(name) => match context.get(name.as_str()) {
                Some(v) => Ok(v),
                None => Err(Error::UndefinedVariable(name.clone())),
            },
        }
    }
}

} // verus!
