use vstd::prelude::*;

pub mod rng;
pub mod text;
pub mod assets;
pub mod buddy;
pub mod render;
pub mod search;
pub mod binary_patch;
pub mod state;
pub mod parse;
pub mod http;
pub mod cli;
pub mod web;

verus! {

} // verus!
