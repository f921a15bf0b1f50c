//! Function-local structural analysis over an already-parsed syntax tree.
//!
//! The crate works on its own closed model of declarations, statements and
//! expressions (module [`ast`]). Two independent analyses form the core:
//! a structural complexity score for unsafe regions in a function body
//! (module [`score`]), and a heuristic type tag for parameters, return
//! types and local bindings (module [`tags`]). Module [`emit`] turns the
//! findings of either analysis into the line-oriented textual form.
//!
//! Parsing source text into the model, and all I/O, is the caller's
//! concern: every function here is a pure function over the model.

pub mod ast;
pub mod emit;
pub mod score;
pub mod tags;
