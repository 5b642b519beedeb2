//! LocalDocks core library.
use vstd::prelude::*;

pub mod assoc;
pub mod errors;
pub mod logic;
pub mod models;
pub mod order;
pub mod platform;
pub mod sampler;
pub mod text;
pub mod time;
pub mod timestamps;
pub mod updates;

verus! {
} // verus!
