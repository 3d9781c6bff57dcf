//! The calls that the library makes into other crates. What each contract
//! says of the code behind it is taken on trust; the rest of the library is
//! proved from these contracts.

pub mod digest;
pub mod fxmap;
pub mod lists;
pub mod pattern;
pub mod sort;
pub mod text;
pub mod word;
