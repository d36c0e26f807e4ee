use vstd::prelude::*;

pub mod catalog;
pub mod command_handlers;
pub mod errors;
pub mod utils;
pub mod workspace;

verus! {

} // verus!
