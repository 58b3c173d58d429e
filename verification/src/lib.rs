//! Core of an evaluator for Untyped Plutus Core: a CEK machine that reduces
//! terms to values under a strict cost budget, together with the builtin
//! runtime the machine dispatches to.

pub mod bigint;
pub mod bls;
pub mod builtin;
pub mod bytes;
pub mod constant;
pub mod cost;
pub mod crypto;
pub mod error;
pub mod machine;
pub mod runtime;
pub mod term;
pub mod value;

use vstd::prelude::*;

verus! {

} // verus!
