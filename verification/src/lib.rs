//! A minimal Lisp-like language: a recursive-descent reader turns
//! S-expression source text into a typed form tree, and a tree-walking
//! evaluator executes that tree against a lexically scoped environment of
//! builtin and user-defined functions.
//!
//! The reader is specified exactly by a recursive specification of the
//! grammar; the evaluator's argument preparation, type unification, coercion
//! and folds carry exact contracts, and every evaluation step is proved to
//! preserve the scope discipline: frames below the innermost are never
//! touched, and a user-function invocation leaves the frame stack exactly as
//! it found it. Float values are carried as the decimal text of their
//! literals; their arithmetic is delegated to a decimal library behind
//! trusted, named operations.

use vstd::prelude::*;

pub mod basic;
pub mod coerce;
pub mod decimal;
pub mod eval;
pub mod numbers;
pub mod parser;
pub mod state;
pub mod value;

verus! {

/// Relies on std's `String::push`: appends one character to the string.
pub assume_specification[ String::push ](s: &mut String, ch: char)
    ensures
        final(s)@ == old(s)@.push(ch),
;

} // verus!
