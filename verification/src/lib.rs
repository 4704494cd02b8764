//! Canonical formatting for GraphQL documents.
//!
//! The crate renders a parsed GraphQL document (an operation document or a
//! type-system document) into one canonical textual form: stable field,
//! argument and type ordering, two-space indentation, an 80-column soft wrap
//! for argument lists, and explicit description placement.  Parsing the raw
//! text is left to an external parser; callers hand the formatter an already
//! built syntax tree.

pub mod ast;
pub mod canon;
pub mod error;
pub mod format;
pub mod sort;
pub mod strings;
