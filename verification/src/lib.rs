use vstd::prelude::*;

pub mod auth;
pub mod codec;
pub mod display;
pub mod installed;
pub mod modding;
pub mod nexusmods;
pub mod sorting;
pub mod steam;
pub mod text;

verus! {

} // verus!
