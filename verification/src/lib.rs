use vstd::prelude::*;

pub mod clock;
pub mod cpu;
pub mod gauge;
pub mod history;
pub mod panels;
pub mod rows;
pub mod text;
pub mod theme;

verus! {

} // verus!
