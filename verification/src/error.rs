//! What can go wrong while a line, a block of lines or a record is read.

use vstd::prelude::*;

verus! {

/// Why a token is not a value of the type asked for.
#[derive(Debug, Clone, Copy, PartialEq, Eq, Structural)]
pub enum ConversionError {
    /// The token is empty.
    Empty,
    /// The token is not an optional sign followed by decimal digits.
    InvalidDigit,
    /// The number is above the largest value of the type.
    PosOverflow,
    /// The number is below the smallest value of the type.
    NegOverflow,
    /// The token is neither `true` nor `false`.
    NotBool,
    /// The token is not exactly one character.
    NotChar,
}

/// Why a line, or a block of lines, could not be read as a value.
#[derive(Debug, Clone, Copy, PartialEq, Eq, Structural)]
pub enum ParseError {
    /// The token in position `slot` of the line could not be converted.
    Conversion { slot: usize, kind: ConversionError },
    /// The line has too few tokens: `slot` is the first position left empty.
    MissingSlot { slot: usize },
    /// The line has `found` tokens where exactly `expected` are needed.
    WrongSize { expected: usize, found: usize },
    /// The input ended before the line could be read.
    ShortRead,
}

/// Why a piece of text is not a count expression.
#[derive(Debug, Clone, Copy, PartialEq, Eq, Structural)]
pub enum ExpressionError {
    /// The text is not admitted: it is too long, holds too many marks, or
    /// holds a character where it may not stand.
    Refused,
    /// The text is not an expression.
    Invalid,
    /// The text is an expression, but of a form that is no count: anything
    /// but a field's name, a number, an operation of arithmetic on two
    /// counts, or one of these in parentheses.
    Unsupported,
    /// A literal is not a decimal number that fits a count.
    Literal,
    /// Operations and parentheses are nested too deeply.
    TooDeep,
}

/// Why the annotations of a field give no attribute.
#[derive(Debug, Clone, Copy, PartialEq, Eq, Structural)]
pub enum AttributeError {
    /// An annotation for this library holds no directive.
    Missing,
    /// The field has more than one directive.
    Duplicate,
    /// An annotation cannot be read, or its directive is none of those that
    /// the library knows.
    Malformed,
    /// The count of a counted field is no count expression.
    Expression(ExpressionError),
}

/// Why no schema can be compiled for a record.
#[derive(Debug, Clone, Copy, PartialEq, Eq, Structural)]
pub enum SchemaError {
    /// The record is not a struct with named fields.
    UnsupportedRecord,
    /// The declared type of the field in position `field` is none that can
    /// be read.
    Declared { field: usize },
    /// The field in position `field` has no name.
    Unnamed { field: usize },
    /// The annotations of the field in position `field` give no attribute.
    Attribute { field: usize, kind: AttributeError },
    /// An inline block holds no field; `field` is the position at which its
    /// first field would stand.
    Empty { field: usize },
    /// An inline block holds more fields than a tuple has slots; `field` is
    /// the first that is one too many.
    TooWide { field: usize },
    /// The declared type of the field in position `field` does not fit the
    /// way it is read: a counted field must be a sequence of rows, an inline
    /// field must be read from one line, and a field that shares its line
    /// with others must be a single value.
    Type { field: usize },
    /// The count of the field in position `field` reads a name under which
    /// no earlier field holds a single integer.
    Reference { field: usize },
}

/// Why a block of a record could not be read.
#[derive(Debug, Clone, Copy, PartialEq, Eq, Structural)]
pub enum Cause {
    /// A line of the block could not be read.
    Parse(ParseError),
    /// The count of the block does not come to a number of rows: a field it
    /// reads holds a negative number or one too large, or an operation
    /// leaves the range of counts.
    Count,
}

/// The failure to read a record: the block that failed, by its position in
/// the schema, and why.
#[derive(Debug, Clone, Copy, PartialEq, Eq, Structural)]
pub struct RecordError {
    pub block: usize,
    pub cause: Cause,
}

/// Why the parameters of a harness cannot be used.
#[derive(Debug, Clone, Copy, PartialEq, Eq, Structural)]
pub enum HarnessError {
    /// The parameter in position `parameter` has not the form of a name, an
    /// equals sign and a value.
    Form { parameter: usize },
    /// The parameter in position `parameter` is neither `input` nor
    /// `output`.
    Unrecognised { parameter: usize },
    /// The value of the parameter in position `parameter` is no string.
    Literal { parameter: usize },
    /// Of the test input and the test output only one is given.
    Incomplete,
    /// The solution is called `main`, the name of the entry point that the
    /// harness adds.
    Main,
}

impl ParseError {
    /// Whether this is the failure to convert one of the first `n` tokens of
    /// a line.
    pub open spec fn is_conversion_within(self, n: int) -> bool {
        self matches ParseError::Conversion { slot, .. } && slot < n
    }
}

/// Whether the outcome `r` is the one that `model` describes: the same
/// failure, or a value whose view is the value described.
pub open spec fn agrees<T: DeepView, E>(r: Result<T, E>, model: Result<T::V, E>) -> bool {
    match r {
        Ok(v) => model == Ok::<T::V, E>(v.deep_view()),
        Err(e) => model == Err::<T::V, E>(e),
    }
}

} // verus!
