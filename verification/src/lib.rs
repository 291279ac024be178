//! A tree-walking evaluator for a small dynamically typed scripting language
//! with numbers, strings, lexical scopes, functions and classes.
//!
//! `semantics` says what evaluation means, as functions on a model of the
//! interpreter's state; `interpreter` is the evaluator, proved to do exactly
//! that; `theorems` holds what follows for every run. Numbers are doubles,
//! held as their bits: `number` does their arithmetic in integers and
//! `rounding` says what the nearest double to an exact result is.

pub mod class;
pub mod display;
pub mod environment;
pub mod error;
pub mod interpreter;
pub mod number;
pub mod rounding;
pub mod semantics;
pub mod table;
pub mod theorems;
pub mod token;
pub mod value;
