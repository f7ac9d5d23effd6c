//! Schema-driven parsing of line-structured text.
//!
//! A record is a list of named fields. The schema compiler groups the fields
//! into blocks: an inline block is read from one line, split on whitespace; a
//! counted block is read from as many lines as an earlier field says. Parsing
//! runs the blocks in order against a [`read::Reader`], once and without
//! backtracking.

pub mod agree;
pub mod attribute;
pub mod decl;
pub mod error;
pub mod expr;
pub mod harness;
pub mod message;
pub mod number;
pub mod prelude;
pub mod read;
pub mod record;
pub mod schema;
pub mod source;
pub mod syntax;
pub mod testcase;
pub mod text;
pub mod tuples;
pub mod types;
pub mod value;
