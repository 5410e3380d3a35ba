use vstd::prelude::*;

pub mod finding_codes;
mod lower;
pub mod order;
pub mod patcher;
pub mod project;
pub mod reentrancy;
pub mod rules;
pub mod smt;
pub mod syntax;
pub mod text;
pub mod upgrade_analysis;

verus! {

} // verus!
