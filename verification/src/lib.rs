//! Derivations for a small call-by-value expression language.
//!
//! Source text is turned into tokens, tokens into a judgement, and the
//! judgement into the derivation tree that justifies how its expression
//! evaluates under the big-step rules `E-Int`, `E-Plus`, `E-IfT`, `E-Var1`
//! and their relatives, error rules included.
//!
//! The library computes; it performs no input or output. Every function is
//! verified against a mathematical model of the data it works on.

pub mod derivation;
pub mod expr;
pub mod parser;
pub mod solver;
pub mod text;
pub mod tokenizer;
