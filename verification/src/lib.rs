//! A small dynamically typed command language: a statement lexer, an
//! expression lexer, a recursive value parser, and an evaluator that binds
//! variables and dispatches methods over a value's runtime variant.
//!
//! Everything the engine cannot compute for itself — filesystem access,
//! process launching, terminal output, and the platform's floating-point
//! parsing, formatting and arithmetic — is requested from an
//! [`effects::EffectHandler`] that the embedding program supplies.
pub mod effects;
pub mod handles;
pub mod lexer;
pub mod memory;
pub mod shell;
pub mod number;
pub mod value;
pub mod text;

use vstd::prelude::*;

verus! {

} // verus!
