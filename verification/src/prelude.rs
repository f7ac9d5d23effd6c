//! The names that a program reading test cases needs.

pub use crate::error::ParseError;
pub use crate::read::{Parse, ParseBlock, ParseLine, Reader};
pub use crate::testcase::{BlockTestCase, FromToken, InlineTestCase, TestCase};
