//! A small evaluator for symbolic expressions in the style of McCarthy's
//! LISP, with a reader and a printer for their written form.
//!
//! An expression is an atom or a list of expressions ([`expr`]). An
//! environment binds names to expressions ([`env`]). [`eval::eval`] evaluates
//! an expression in an environment; what it gives is stated by
//! [`model::eval_spec`], a function on values and maps. The forms are `quote`,
//! `atom`, `eq`, `car`, `cdr`, `cons`, `cond` and `defun`; every other list
//! is the call of a closure literal ([`closure`]). A call has a scope of its
//! own, which ends with it; `defun` binds in the ambient environment, from
//! inside a call too.
//!
//! [`render`] writes an expression as text, [`token`] splits a text into
//! words and tokens and [`reader`] builds expressions from them.
//!
//! The modules [`laws`], [`depth`], [`growth`] and [`roundtrip`] hold what is
//! proved of all expressions and all environments.

pub mod closure;
pub mod depth;
pub mod env;
pub mod error;
pub mod eval;
pub mod expr;
pub mod growth;
pub mod laws;
pub mod model;
pub mod pattern;
pub mod reader;
pub mod render;
pub mod roundtrip;
pub mod text;
pub mod token;
