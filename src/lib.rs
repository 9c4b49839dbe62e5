//! Parsing of Valve's ACF/VDF text format, as found in Steam application manifests, into a
//! tree of named blocks that hold key/value expressions and nested blocks.
use vstd::prelude::*;

/// Project specific errors
pub mod errors;
/// The grammar of the format, as spec functions over characters
pub mod grammar;
/// What the parser is proved to do on texts written in a regular layout
pub mod laws;
/// The mathematical model of a parsed document
pub mod model;
/// Parsing functionality
pub mod parser;
/// Character-level helpers
pub mod text;

pub use crate::errors::AcfError;
pub use crate::parser::{parse_acf, Acf, Entry};

verus! {

} // verus!
