//! Failures in words: what went wrong, and the names of the fields it
//! concerns.

use crate::decl::{RecordDecl, RecordDeclModel};
use crate::error::{
    AttributeError, Cause, ConversionError, ExpressionError, ParseError, RecordError, SchemaError,
};
use crate::number::{canonical, unsigned_text};
use crate::schema::{names_of, BlockModel, Field, FieldBlock, Schema};
use vstd::prelude::*;
use vstd::string::StringExecFns;

verus! {

/// `names` in one text, with a comma and a space between one and the next.
pub open spec fn joined(names: Seq<Seq<char>>) -> Seq<char>
    decreases names.len(),
{
    if names.len() == 0 {
        Seq::empty()
    } else if names.len() == 1 {
        names[0]
    } else {
        joined(names.drop_last()) + ", "@ + names.last()
    }
}

impl ConversionError {
    /// Why the token is no value, in words.
    pub open spec fn text(self) -> Seq<char> {
        match self {
            ConversionError::Empty => "cannot parse integer from empty string"@,
            ConversionError::InvalidDigit => "invalid digit found in string"@,
            ConversionError::PosOverflow => "number too large to fit in target type"@,
            ConversionError::NegOverflow => "number too small to fit in target type"@,
            ConversionError::NotBool => "provided string was not `true` or `false`"@,
            ConversionError::NotChar => "provided string was not one character"@,
        }
    }

    /// Why the token is no value, in words.
    pub fn message(&self) -> (text: &'static str)
        ensures
            text@ == self.text(),
    {
        match self {
            ConversionError::Empty => "cannot parse integer from empty string",
            ConversionError::InvalidDigit => "invalid digit found in string",
            ConversionError::PosOverflow => "number too large to fit in target type",
            ConversionError::NegOverflow => "number too small to fit in target type",
            ConversionError::NotBool => "provided string was not `true` or `false`",
            ConversionError::NotChar => "provided string was not one character",
        }
    }
}

impl ParseError {
    /// Why the line could not be read, in words.
    pub open spec fn text(self) -> Seq<char> {
        match self {
            ParseError::Conversion { slot, kind } => kind.text() + " in slot "@ + canonical(
                slot as int,
            ),
            ParseError::MissingSlot { slot } => "missing slot "@ + canonical(slot as int),
            ParseError::WrongSize { expected, found } => "array of invalid size: "@ + canonical(
                found as int,
            ),
            ParseError::ShortRead => "unexpected end of input"@,
        }
    }

    /// Why the line could not be read, in words.
    pub fn message(&self) -> (text: String)
        ensures
            text@ == self.text(),
    {
        match self {
            ParseError::Conversion { slot, kind } => {
                let mut text = kind.message().to_owned();
                text.append(" in slot ");
                text.append(unsigned_text(*slot as u128).as_str());
                text
            },
            ParseError::MissingSlot { slot } => {
                let mut text = "missing slot ".to_owned();
                text.append(unsigned_text(*slot as u128).as_str());
                text
            },
            ParseError::WrongSize { expected, found } => {
                let mut text = "array of invalid size: ".to_owned();
                text.append(unsigned_text(*found as u128).as_str());
                text
            },
            ParseError::ShortRead => "unexpected end of input".to_owned(),
        }
    }
}

impl Cause {
    /// Why the block could not be read, in words.
    pub open spec fn text(self) -> Seq<char> {
        match self {
            Cause::Parse(e) => e.text(),
            Cause::Count => "the count is out of range"@,
        }
    }

    /// Why the block could not be read, in words.
    pub fn message(&self) -> (text: String)
        ensures
            text@ == self.text(),
    {
        match self {
            Cause::Parse(e) => e.message(),
            Cause::Count => "the count is out of range".to_owned(),
        }
    }
}

/// The names of the fields of the block in position `block`, or none where
/// there is no such block.
pub open spec fn block_names(blocks: Seq<BlockModel>, block: int) -> Seq<Seq<char>> {
    if 0 <= block < blocks.len() {
        names_of(blocks[block].fields())
    } else {
        Seq::empty()
    }
}

/// The failure to read a record, in words: the names of the fields of the
/// block that failed, and why it failed.
pub open spec fn record_text(blocks: Seq<BlockModel>, error: RecordError) -> Seq<char> {
    "invalid value for "@ + joined(block_names(blocks, error.block as int)) + ": "@
        + error.cause.text()
}

/// The names of `fields` in one text, with a comma and a space between one
/// and the next.
pub fn join_names(fields: &Vec<Field>) -> (text: String)
    ensures
        text@ == joined(names_of(fields.deep_view())),
{
    let ghost names = names_of(fields.deep_view());
    let mut text = String::new();
    let mut i: usize = 0;
    assert(names.take(0) =~= Seq::<Seq<char>>::empty());
    while i < fields.len()
        invariant
            i <= fields.len(),
            names == names_of(fields.deep_view()),
            text@ == joined(names.take(i as int)),
        decreases fields.len() - i,
    {
        proof {
            assert(names.take(i + 1).drop_last() =~= names.take(i as int));
            assert(names.take(i + 1).last() == fields@[i as int].name@);
            assert(names.take(i + 1)[0] == names[0]);
        }
        if i > 0 {
            text.append(", ");
        }
        text.append(fields[i].name.as_str());
        proof {
            if i == 0 {
                assert(text@ =~= names[0]);
            }
        }
        i += 1;
    }
    assert(names.take(i as int) =~= names);
    text
}

impl Schema {
    /// The failure `error` to read a record under this schema, in words.
    pub fn describe(&self, error: &RecordError) -> (text: String)
        ensures
            text@ == record_text(self.deep_view(), *error),
    {
        let blocks = self.blocks();
        let mut text = "invalid value for ".to_owned();
        if error.block < blocks.len() {
            assert(self.deep_view()[error.block as int] == blocks@[error.block as int].deep_view());
            match &blocks[error.block] {
                FieldBlock::Inline(fields) => {
                    text.append(join_names(fields).as_str());
                },
                FieldBlock::Lines { field, count } => {
                    assert(joined(names_of(seq![field.deep_view()])) == field.name@);
                    text.append(field.name.as_str());
                },
            }
        } else {
            assert("invalid value for "@ + joined(Seq::<Seq<char>>::empty())
                =~= "invalid value for "@);
        }
        text.append(": ");
        text.append(error.cause.message().as_str());
        text
    }
}

impl ExpressionError {
    /// Why the text is no count expression, in words.
    pub open spec fn text(self) -> Seq<char> {
        match self {
            ExpressionError::Refused => "the expression holds what is not read"@,
            ExpressionError::Invalid => "invalid expression in lines"@,
            ExpressionError::Unsupported => "the expression is no count"@,
            ExpressionError::Literal => "the expression holds a literal that is no count"@,
            ExpressionError::TooDeep => "the expression is nested too deeply"@,
        }
    }

    /// Why the text is no count expression, in words.
    pub fn message(&self) -> (text: &'static str)
        ensures
            text@ == self.text(),
    {
        match self {
            ExpressionError::Refused => "the expression holds what is not read",
            ExpressionError::Invalid => "invalid expression in lines",
            ExpressionError::Unsupported => "the expression is no count",
            ExpressionError::Literal => "the expression holds a literal that is no count",
            ExpressionError::TooDeep => "the expression is nested too deeply",
        }
    }
}

impl AttributeError {
    /// Why the annotations give no attribute, in words.
    pub open spec fn text(self) -> Seq<char> {
        match self {
            AttributeError::Missing => "empty attribute"@,
            AttributeError::Duplicate => "more than one attribute"@,
            AttributeError::Malformed => "invalid attribute"@,
            AttributeError::Expression(e) => e.text(),
        }
    }

    /// Why the annotations give no attribute, in words.
    pub fn message(&self) -> (text: &'static str)
        ensures
            text@ == self.text(),
    {
        match self {
            AttributeError::Missing => "empty attribute",
            AttributeError::Duplicate => "more than one attribute",
            AttributeError::Malformed => "invalid attribute",
            AttributeError::Expression(e) => e.message(),
        }
    }
}

impl SchemaError {
    /// The position of the field that the fault lies with, where it lies
    /// with one.
    pub open spec fn field(self) -> Option<usize> {
        match self {
            SchemaError::UnsupportedRecord => None,
            SchemaError::Declared { field } => Some(field),
            SchemaError::Unnamed { field } => Some(field),
            SchemaError::Attribute { field, .. } => Some(field),
            SchemaError::Empty { field } => Some(field),
            SchemaError::TooWide { field } => Some(field),
            SchemaError::Type { field } => Some(field),
            SchemaError::Reference { field } => Some(field),
        }
    }

    /// What is wrong, in words.
    pub open spec fn text(self) -> Seq<char> {
        match self {
            SchemaError::UnsupportedRecord => "only a struct with named fields can be read"@,
            SchemaError::Declared { .. } => "the type is none that can be read"@,
            SchemaError::Unnamed { .. } => "the field has no name"@,
            SchemaError::Attribute { kind, .. } => kind.text(),
            SchemaError::Empty { .. } => "a block without fields"@,
            SchemaError::TooWide { .. } => "too many fields on one line"@,
            SchemaError::Type { .. } => "the type does not fit the way the field is read"@,
            SchemaError::Reference { .. } => "the count reads what is no earlier integer field"@,
        }
    }

    /// The position of the field that the fault lies with, where it lies
    /// with one.
    pub fn position(&self) -> (field: Option<usize>)
        ensures
            field == self.field(),
    {
        match self {
            SchemaError::UnsupportedRecord => None,
            SchemaError::Declared { field } => Some(*field),
            SchemaError::Unnamed { field } => Some(*field),
            SchemaError::Attribute { field, .. } => Some(*field),
            SchemaError::Empty { field } => Some(*field),
            SchemaError::TooWide { field } => Some(*field),
            SchemaError::Type { field } => Some(*field),
            SchemaError::Reference { field } => Some(*field),
        }
    }

    /// What is wrong, in words.
    pub fn message(&self) -> (text: &'static str)
        ensures
            text@ == self.text(),
    {
        match self {
            SchemaError::UnsupportedRecord => "only a struct with named fields can be read",
            SchemaError::Declared { .. } => "the type is none that can be read",
            SchemaError::Unnamed { .. } => "the field has no name",
            SchemaError::Attribute { kind, .. } => kind.message(),
            SchemaError::Empty { .. } => "a block without fields",
            SchemaError::TooWide { .. } => "too many fields on one line",
            SchemaError::Type { .. } => "the type does not fit the way the field is read",
            SchemaError::Reference { .. } => "the count reads what is no earlier integer field",
        }
    }
}

/// How the field in position `field` of a declaration is called in a
/// message: by its name, or by its position where it has none or where
/// there is no such field.
pub open spec fn field_label(decl: RecordDeclModel, field: int) -> Seq<char> {
    if 0 <= field < decl.fields.len() && decl.fields[field].name is Some {
        "field "@ + decl.fields[field].name->Some_0
    } else {
        "field number "@ + canonical(field)
    }
}

/// Why the declaration has no schema, in words: the field that the fault
/// lies with, where it lies with one, and what is wrong.
pub open spec fn schema_text(decl: RecordDeclModel, error: SchemaError) -> Seq<char> {
    match error.field() {
        Some(field) => field_label(decl, field as int) + ": "@ + error.text(),
        None => error.text(),
    }
}

impl RecordDecl {
    /// Why this declaration has no schema, in words.
    pub fn describe(&self, error: &SchemaError) -> (text: String)
        ensures
            text@ == schema_text(self.deep_view(), *error),
    {
        match error.position() {
            None => error.message().to_owned(),
            Some(field) => {
                let named = if field < self.fields.len() {
                    assert(self.deep_view().fields[field as int] == self.fields@[field as int].deep_view());
                    self.fields[field].name.is_some()
                } else {
                    false
                };
                let mut text = if named {
                    let mut text = "field ".to_owned();
                    match &self.fields[field].name {
                        Some(name) => text.append(name.as_str()),
                        None => {},
                    }
                    text
                } else {
                    let mut text = "field number ".to_owned();
                    text.append(unsigned_text(field as u128).as_str());
                    text
                };
                text.append(": ");
                text.append(error.message());
                text
            },
        }
    }
}

} // verus!
