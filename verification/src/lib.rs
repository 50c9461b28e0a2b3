//! Canonicalizer for the leading block of Python-style import statements.
//!
//! A source buffer is scanned for a maximal leading run of import
//! statements (absolute, relative, and wildcard forms).  The recognized
//! statements are parsed into a structured model, relative imports sharing
//! an origin are merged, multi-module absolute imports are split into one
//! statement per module, the list is sorted under a fixed total order, and
//! each entry is rendered back to text.  Everything after the recognized
//! block is left untouched.

pub mod import;
pub mod order;
pub mod parser;
pub mod render;
pub mod transformers;
