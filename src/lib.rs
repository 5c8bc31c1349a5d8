//! Parsing and formatting of semantic version strings.
use vstd::prelude::*;

pub mod cursor;
pub mod laws;
pub mod parse;
pub mod text;
pub mod version;

pub use parse::ParseError;
pub use version::{Identifier, Version};

verus! {

} // verus!
