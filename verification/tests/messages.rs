use testcase::decl::{FieldDecl, RecordDecl, RecordKind};
use testcase::error::{
    AttributeError, Cause, ConversionError, ExpressionError, ParseError, RecordError, SchemaError,
};
use testcase::number::{signed_text, unsigned_text};
use testcase::read::Reader;
use testcase::schema::compile;
use testcase::value::Scalar;

fn declared(name: &str, ty: &str, annotations: &[&str]) -> FieldDecl {
    FieldDecl {
        name: Some(name.to_string()),
        ty: ty.to_string(),
        annotations: annotations.iter().map(|a| a.to_string()).collect(),
    }
}

fn record(fields: Vec<FieldDecl>) -> RecordDecl {
    RecordDecl { name: "Test".to_string(), kind: RecordKind::Struct, fields }
}

#[test]
fn numbers_are_written_in_canonical_form() {
    assert_eq!(unsigned_text(0), "0");
    assert_eq!(unsigned_text(7), "7");
    assert_eq!(unsigned_text(10), "10");
    assert_eq!(unsigned_text(1234567890), "1234567890");
    assert_eq!(unsigned_text(u128::MAX), "340282366920938463463374607431768211455");
    assert_eq!(signed_text(0), "0");
    assert_eq!(signed_text(-1), "-1");
    assert_eq!(signed_text(42), "42");
    assert_eq!(signed_text(i128::MIN), "-170141183460469231731687303715884105728");
    assert_eq!(signed_text(i128::MAX), "170141183460469231731687303715884105727");
}

#[test]
fn values_are_written_as_they_are_read() {
    assert_eq!(Scalar::Unsigned(18).to_text(), "18");
    assert_eq!(Scalar::Signed(-42).to_text(), "-42");
    assert_eq!(Scalar::Text("dan".to_string()).to_text(), "dan");
    assert_eq!(Scalar::Bool(true).to_text(), "true");
    assert_eq!(Scalar::Bool(false).to_text(), "false");
    assert_eq!(Scalar::Char('x').to_text(), "x");
    assert_eq!(Scalar::Char('\u{e9}').to_text(), "\u{e9}");
    for text in ["0", "-1", "255", "170141183460469231731687303715884105727"] {
        let value: i128 = testcase::testcase::InlineTestCase::parse_line(text).unwrap();
        assert_eq!(signed_text(value), text);
    }
    for text in ["+7", "007", "-0"] {
        let value: i128 = testcase::testcase::InlineTestCase::parse_line(text).unwrap();
        assert_ne!(signed_text(value), text);
    }
}

#[test]
fn line_failures_in_words() {
    assert_eq!(
        ParseError::Conversion { slot: 2, kind: ConversionError::InvalidDigit }.message(),
        "invalid digit found in string in slot 2"
    );
    assert_eq!(
        ParseError::Conversion { slot: 0, kind: ConversionError::Empty }.message(),
        "cannot parse integer from empty string in slot 0"
    );
    assert_eq!(
        ParseError::Conversion { slot: 10, kind: ConversionError::PosOverflow }.message(),
        "number too large to fit in target type in slot 10"
    );
    assert_eq!(
        ParseError::Conversion { slot: 1, kind: ConversionError::NegOverflow }.message(),
        "number too small to fit in target type in slot 1"
    );
    assert_eq!(
        ParseError::Conversion { slot: 3, kind: ConversionError::NotBool }.message(),
        "provided string was not `true` or `false` in slot 3"
    );
    assert_eq!(
        ParseError::Conversion { slot: 4, kind: ConversionError::NotChar }.message(),
        "provided string was not one character in slot 4"
    );
    assert_eq!(ParseError::MissingSlot { slot: 1 }.message(), "missing slot 1");
    assert_eq!(
        ParseError::WrongSize { expected: 2, found: 3 }.message(),
        "array of invalid size: 3"
    );
    assert_eq!(ParseError::ShortRead.message(), "unexpected end of input");
    assert_eq!(Cause::Count.message(), "the count is out of range");
}

#[test]
fn record_failure_names_the_fields_of_its_block() {
    let schema = compile(&record(vec![
        declared("n", "usize", &[]),
        declared("s", "String", &[]),
        declared("edges", "Vec<(u64, u64)>", &["testcase(lines = \"n\")"]),
        declared("last", "i8", &[]),
    ]))
    .unwrap();
    let failure = |input: &str| {
        let error = schema.parse(&mut Reader::new(input)).unwrap_err();
        schema.describe(&error)
    };
    assert_eq!(failure("x dan\n"), "invalid value for n, s: invalid digit found in string in slot 0");
    assert_eq!(failure("3\n"), "invalid value for n, s: missing slot 1");
    assert_eq!(failure(""), "invalid value for n, s: unexpected end of input");
    assert_eq!(failure("3 dan\n1 2\n3 4\n"), "invalid value for edges: unexpected end of input");
    assert_eq!(failure("1 dan\n1\n"), "invalid value for edges: missing slot 1");
    assert_eq!(
        failure("0 dan\n128\n"),
        "invalid value for last: number too large to fit in target type in slot 0"
    );
    assert_eq!(
        schema.describe(&RecordError { block: 7, cause: Cause::Count }),
        "invalid value for : the count is out of range"
    );
}

#[test]
fn schema_failure_names_the_field() {
    let decl = record(vec![
        declared("n", "usize", &[]),
        declared("edges", "Vec<(u64, u64)>", &["testcase(lines = \"n\")"]),
    ]);
    let messages = [
        (SchemaError::UnsupportedRecord, "only a struct with named fields can be read"),
        (SchemaError::Unnamed { field: 5 }, "field number 5: the field has no name"),
        (SchemaError::Declared { field: 0 }, "field n: the type is none that can be read"),
        (
            SchemaError::Attribute { field: 1, kind: AttributeError::Missing },
            "field edges: empty attribute",
        ),
        (
            SchemaError::Attribute { field: 1, kind: AttributeError::Duplicate },
            "field edges: more than one attribute",
        ),
        (
            SchemaError::Attribute { field: 1, kind: AttributeError::Malformed },
            "field edges: invalid attribute",
        ),
        (
            SchemaError::Attribute {
                field: 1,
                kind: AttributeError::Expression(ExpressionError::Invalid),
            },
            "field edges: invalid expression in lines",
        ),
        (
            SchemaError::Attribute {
                field: 1,
                kind: AttributeError::Expression(ExpressionError::Unsupported),
            },
            "field edges: the expression is no count",
        ),
        (
            SchemaError::Attribute {
                field: 1,
                kind: AttributeError::Expression(ExpressionError::Literal),
            },
            "field edges: the expression holds a literal that is no count",
        ),
        (
            SchemaError::Attribute {
                field: 1,
                kind: AttributeError::Expression(ExpressionError::Refused),
            },
            "field edges: the expression holds what is not read",
        ),
        (
            SchemaError::Attribute {
                field: 1,
                kind: AttributeError::Expression(ExpressionError::TooDeep),
            },
            "field edges: the expression is nested too deeply",
        ),
        (SchemaError::Empty { field: 2 }, "field number 2: a block without fields"),
        (SchemaError::TooWide { field: 1 }, "field edges: too many fields on one line"),
        (
            SchemaError::Type { field: 1 },
            "field edges: the type does not fit the way the field is read",
        ),
        (
            SchemaError::Reference { field: 1 },
            "field edges: the count reads what is no earlier integer field",
        ),
    ];
    for (error, message) in messages {
        assert_eq!(decl.describe(&error), message);
    }
    let mut unnamed = decl.clone();
    unnamed.fields[0].name = None;
    let error = compile(&unnamed).unwrap_err();
    assert_eq!(error, SchemaError::Unnamed { field: 0 });
    assert_eq!(unnamed.describe(&error), "field number 0: the field has no name");
}
