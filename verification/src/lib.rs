use vstd::prelude::*;

pub mod emit;
pub mod interp4;
pub mod js4;
pub mod layout;
pub mod compile3;
pub mod names;
pub mod page4;
pub mod properties;
pub mod runtime4;
pub mod script4;
pub mod syntax4;
pub mod text;
pub mod ui4;
pub mod warp3;
pub mod warp4;

verus! {
}
