//! A calculator for physical quantities in CGS units: a line of text is
//! classified into literals and catalog names, built into an operator tree by
//! a single left-to-right pass, and flattened into a post-order program whose
//! steps a numeric back end runs.
use vstd::prelude::*;

pub mod catalog;
pub mod number;
pub mod instruction;
pub mod parse;
pub mod program;
pub mod unit;

verus! {

} // verus!
