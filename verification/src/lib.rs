use vstd::prelude::*;

pub mod cli;
pub mod environment;
pub mod event;
pub mod interp;
pub mod round_trip;
pub mod json;
pub mod spec;
pub mod spec_lisp;
pub mod steps;
pub mod text;

verus! {
} // verus!
