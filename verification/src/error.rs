//! The ways in which an evaluation fails.

use vstd::prelude::*;

verus! {

/// The forms that take a fixed number of operands.
#[derive(Clone, Copy, Debug, PartialEq, Eq, Structural)]
pub enum Form {
    Quote,
    Atom,
    Eq,
    Car,
    Cdr,
    Cons,
    Defun,
    /// The application of a closure.
    Closure,
}

/// The operands that must have a certain shape.
#[derive(Clone, Copy, Debug, PartialEq, Eq, Structural)]
pub enum TypeFault {
    /// The second operand of `cons` is not a list.
    ConsTail,
    /// The name given to `defun` is not an atom.
    DefunName,
    /// The parameters given to `defun` are not a list of atoms.
    DefunParams,
}

/// Why an evaluation failed.
#[derive(Clone, Copy, Debug, PartialEq, Eq, Structural)]
pub enum EvalError {
    /// An atom is bound to nothing.
    UnboundSymbol,
    /// The empty list stands where a call is expected.
    NoProcedure,
    /// The operator is no closure literal, neither as written nor after one
    /// evaluation.
    NotCallable,
    /// A form or a closure got another number of operands than it takes.
    ArityError { form: Form, expected: usize },
    /// An operand has the wrong shape.
    TypeError(TypeFault),
    /// A clause of `cond` is not a list of two expressions.
    MalformedCond,
    /// The evaluation needs more nested evaluations than the limit allows.
    DepthExceeded,
}

impl EvalError {
    /// The text that describes the failure.
    pub open spec fn spec_message(self) -> Seq<char> {
        match self {
            EvalError::UnboundSymbol => "Symbol not found."@,
            EvalError::NoProcedure => "No procedure to call."@,
            EvalError::NotCallable => "Unrecognized expression."@,
            EvalError::ArityError { form, expected } => match form {
                Form::Quote => "`quote` expects exactly one argument."@,
                Form::Atom => "`atom` expects exactly one argument."@,
                Form::Eq => "`eq` expects exactly two arguments."@,
                Form::Car => "`car` expects exactly one argument."@,
                Form::Cdr => "`cdr` expects exactly one argument."@,
                Form::Cons => "`cons` expects exactly two argument."@,
                Form::Defun => "`defun` expects exactly three arguments."@,
                Form::Closure =>
                    "mismatch between number of procedure args and number of args called with."@,
            },
            EvalError::TypeError(fault) => match fault {
                TypeFault::ConsTail => "`cons`'s second argument must be a list"@,
                TypeFault::DefunName => "First argument to `defun` must be a symbol"@,
                TypeFault::DefunParams => "Second argument to `defun` must be a list of params"@,
            },
            EvalError::MalformedCond => "Invalid argument to `cond`"@,
            EvalError::DepthExceeded => "Evaluation is nested too deeply."@,
        }
    }

    /// The text that describes the failure.
    pub fn message(&self) -> (r: &'static str)
        ensures
            r@ == self.spec_message(),
    {
        match self {
            EvalError::UnboundSymbol => "Symbol not found.",
            EvalError::NoProcedure => "No procedure to call.",
            EvalError::NotCallable => "Unrecognized expression.",
            EvalError::ArityError { form, expected } => match form {
                Form::Quote => "`quote` expects exactly one argument.",
                Form::Atom => "`atom` expects exactly one argument.",
                Form::Eq => "`eq` expects exactly two arguments.",
                Form::Car => "`car` expects exactly one argument.",
                Form::Cdr => "`cdr` expects exactly one argument.",
                Form::Cons => "`cons` expects exactly two argument.",
                Form::Defun => "`defun` expects exactly three arguments.",
                Form::Closure =>
                    "mismatch between number of procedure args and number of args called with.",
            },
            EvalError::TypeError(fault) => match fault {
                TypeFault::ConsTail => "`cons`'s second argument must be a list",
                TypeFault::DefunName => "First argument to `defun` must be a symbol",
                TypeFault::DefunParams => "Second argument to `defun` must be a list of params",
            },
            EvalError::MalformedCond => "Invalid argument to `cond`",
            EvalError::DepthExceeded => "Evaluation is nested too deeply.",
        }
    }
}

} // verus!
