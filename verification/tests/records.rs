use testcase::decl::{FieldDecl, RecordDecl, RecordKind};
use testcase::error::{
    AttributeError, Cause, ConversionError, ParseError, RecordError, SchemaError,
};
use testcase::expr::{CountExpr, Operator};
use testcase::read::Reader;
use testcase::schema::{build, compile, Annotated, Field, FieldBlock, Schema};
use testcase::attribute::Attribute;
use testcase::types::{FieldType, LineType, Primitive};
use testcase::value::{FieldValue, LineValue, Scalar};

fn single(name: &str, p: Primitive) -> Field {
    Field { name: name.to_string(), ty: FieldType::Line(LineType::Single(p)) }
}

fn rows(name: &str, row: LineType) -> Field {
    Field { name: name.to_string(), ty: FieldType::Rows(row) }
}

fn declared(name: &str, ty: &str, annotations: &[&str]) -> FieldDecl {
    FieldDecl {
        name: Some(name.to_string()),
        ty: ty.to_string(),
        annotations: annotations.iter().map(|a| a.to_string()).collect(),
    }
}

fn record(fields: Vec<FieldDecl>) -> RecordDecl {
    RecordDecl { name: "Test".to_string(), kind: RecordKind::Struct, fields }
}

fn unsigned(v: u128) -> FieldValue {
    FieldValue::Line(LineValue::Single(Scalar::Unsigned(v)))
}

fn signed(v: i128) -> FieldValue {
    FieldValue::Line(LineValue::Single(Scalar::Signed(v)))
}

fn text(v: &str) -> FieldValue {
    FieldValue::Line(LineValue::Single(Scalar::Text(v.to_string())))
}

fn pair(a: u128, b: u128) -> LineValue {
    LineValue::Many(vec![Scalar::Unsigned(a), Scalar::Unsigned(b)])
}

fn edges_schema() -> Schema {
    compile(&record(vec![
        declared("n", "usize", &["testcase(inline)"]),
        declared(
            "edges",
            "Vec<(u64, u64)>",
            &["testcase(lines = \"n\")"],
        ),
    ]))
    .unwrap()
}

#[test]
fn test_inline_only() {
    let schema = Schema::new(vec![
        FieldBlock::Inline(vec![single("n", Primitive::Usize)]),
        FieldBlock::Inline(vec![single("s", Primitive::Text)]),
        FieldBlock::Inline(vec![single("m", Primitive::I32)]),
    ])
    .unwrap();

    let test = schema.parse(&mut Reader::new("18\ndan\n42\n")).unwrap();

    assert_eq!(test, vec![unsigned(18), text("dan"), signed(42)])
}

#[test]
fn test_inline_tuple() {
    let schema = Schema::new(vec![
        FieldBlock::Inline(vec![single("n", Primitive::Usize), single("s", Primitive::Text)]),
        FieldBlock::Inline(vec![single("x", Primitive::U8), single("y", Primitive::U32)]),
    ])
    .unwrap();

    let test = schema.parse(&mut Reader::new("18 dan\n5 6\n")).unwrap();

    assert_eq!(test, vec![unsigned(18), text("dan"), unsigned(5), unsigned(6)])
}

#[test]
fn test_lines() {
    let schema = edges_schema();

    let test = schema.parse(&mut Reader::new("3\n1 2\n3 4\n5 6\n")).unwrap();

    assert_eq!(
        test,
        vec![unsigned(3), FieldValue::Rows(vec![pair(1, 2), pair(3, 4), pair(5, 6)])]
    )
}

#[test]
fn lines_block_is_short_when_the_input_ends() {
    let schema = edges_schema();
    let mut reader = Reader::new("3\n1 2\n3 4\n");
    assert_eq!(
        schema.parse(&mut reader),
        Err(RecordError { block: 1, cause: Cause::Parse(ParseError::ShortRead) })
    );
    assert_eq!(schema.names()[1], "edges");
    assert!(reader.is_at_end());
}

#[test]
fn inline_tuple_names_the_slot_that_does_not_convert() {
    let schema = compile(&record(vec![
        declared("n", "usize", &[]),
        declared("s", "String", &[]),
        declared("m", "i32", &[]),
    ]))
    .unwrap();
    assert_eq!(
        schema.parse(&mut Reader::new("18 dan notanumber\n")),
        Err(RecordError {
            block: 0,
            cause: Cause::Parse(ParseError::Conversion {
                slot: 2,
                kind: ConversionError::InvalidDigit
            })
        })
    );
}

#[test]
fn lines_block_of_zero_rows_takes_no_line() {
    let schema = edges_schema();
    let mut reader = Reader::new("0\nnext\n");
    assert_eq!(schema.parse(&mut reader), Ok(vec![unsigned(0), FieldValue::Rows(vec![])]));
    assert_eq!(reader.read_line(), Some("next\n".to_string()));
}

#[test]
fn lines_block_takes_exactly_its_count() {
    let schema = edges_schema();
    let mut reader = Reader::new("2\n1 2\n3 4\n5 6\n");
    assert_eq!(
        schema.parse(&mut reader),
        Ok(vec![unsigned(2), FieldValue::Rows(vec![pair(1, 2), pair(3, 4)])])
    );
    assert_eq!(reader.read_line(), Some("5 6\n".to_string()));
}

#[test]
fn lines_block_stops_at_the_first_bad_row() {
    let schema = edges_schema();
    let mut reader = Reader::new("3\n1 2\n3 x\n5 6\n7 8\n");
    assert_eq!(
        schema.parse(&mut reader),
        Err(RecordError {
            block: 1,
            cause: Cause::Parse(ParseError::Conversion {
                slot: 1,
                kind: ConversionError::InvalidDigit
            })
        })
    );
    assert_eq!(reader.read_line(), Some("5 6\n".to_string()));
}

#[test]
fn lines_block_counted_by_a_literal() {
    let schema = compile(&record(vec![declared(
        "table",
        "Vec<[u32; 2]>",
        &["testcase(lines = \"2\")"],
    )]))
    .unwrap();
    assert_eq!(
        schema.parse(&mut Reader::new("1 2\n3 4\n")),
        Ok(vec![FieldValue::Rows(vec![pair(1, 2), pair(3, 4)])])
    );
}

#[test]
fn lines_block_counted_by_an_operation() {
    let schema = compile(&record(vec![
        declared("n", "u8", &[]),
        declared("m", "i64", &[]),
        declared(
            "parents",
            "Vec<u32>",
            &["testcase(lines = \"n * m - 1\")"],
        ),
    ]))
    .unwrap();
    assert_eq!(
        schema.blocks()[1],
        FieldBlock::Lines {
            field: rows("parents", LineType::Single(Primitive::U32)),
            count: CountExpr::Binary(
                Operator::Minus,
                Box::new(CountExpr::Binary(
                    Operator::Times,
                    Box::new(CountExpr::Field("n".to_string())),
                    Box::new(CountExpr::Field("m".to_string()))
                )),
                Box::new(CountExpr::Literal(1))
            )
        }
    );
    let mut reader = Reader::new("2 2\n7\n8\n9\n10\n");
    assert_eq!(
        schema.parse(&mut reader),
        Ok(vec![
            unsigned(2),
            signed(2),
            FieldValue::Rows(vec![
                LineValue::Single(Scalar::Unsigned(7)),
                LineValue::Single(Scalar::Unsigned(8)),
                LineValue::Single(Scalar::Unsigned(9)),
            ])
        ])
    );
    assert_eq!(reader.read_line(), Some("10\n".to_string()));
}

#[test]
fn count_that_leaves_the_counts_fails_the_block() {
    let schema = compile(&record(vec![
        declared("n", "i32", &[]),
        declared(
            "rows",
            "Vec<Vec<u32>>",
            &["testcase(lines = \"n - 1\")"],
        ),
    ]))
    .unwrap();
    let failed = Err(RecordError { block: 1, cause: Cause::Count });
    assert_eq!(schema.parse(&mut Reader::new("0\n1\n")), failed);
    assert_eq!(schema.parse(&mut Reader::new("-3\n1\n")), failed);
    assert_eq!(
        schema.parse(&mut Reader::new("2\n1 2 3\n")),
        Ok(vec![
            signed(2),
            FieldValue::Rows(vec![LineValue::Many(vec![
                Scalar::Unsigned(1),
                Scalar::Unsigned(2),
                Scalar::Unsigned(3)
            ])])
        ])
    );
}

#[test]
fn fields_side_by_side_share_a_block() {
    let schema = compile(&record(vec![
        declared("n", "usize", &["testcase(inline)"]),
        declared("s", "String", &[]),
        declared("x", "u8", &["testcase(inline)"]),
        declared("y", "u32", &[]),
    ]))
    .unwrap();
    assert_eq!(
        schema.blocks(),
        &vec![FieldBlock::Inline(vec![
            single("n", Primitive::Usize),
            single("s", Primitive::Text),
            single("x", Primitive::U8),
            single("y", Primitive::U32),
        ])]
    );
    assert_eq!(
        schema.parse(&mut Reader::new("18 dan 5 6\n")),
        Ok(vec![unsigned(18), text("dan"), unsigned(5), unsigned(6)])
    );
    assert_eq!(
        schema.parse(&mut Reader::new("18 dan\n5 6\n")),
        Err(RecordError { block: 0, cause: Cause::Parse(ParseError::MissingSlot { slot: 2 }) })
    );
}

#[test]
fn counted_fields_stand_alone() {
    let row = LineType::Sequence(Primitive::I32);
    let schema = compile(&record(vec![
        declared("a", "u8", &[]),
        declared("b", "u8", &[]),
        declared("xs", "Vec<Vec<i32>>", &["testcase(lines = \"a\")"]),
        declared("ys", "Vec<Vec<i32>>", &["testcase(lines = \"b\")"]),
        declared("t", "String", &[]),
    ]))
    .unwrap();
    assert_eq!(
        schema.blocks(),
        &vec![
            FieldBlock::Inline(vec![single("a", Primitive::U8), single("b", Primitive::U8)]),
            FieldBlock::Lines { field: rows("xs", row.clone()), count: CountExpr::Field("a".to_string()) },
            FieldBlock::Lines { field: rows("ys", row.clone()), count: CountExpr::Field("b".to_string()) },
            FieldBlock::Inline(vec![single("t", Primitive::Text)]),
        ]
    );
    assert_eq!(schema.names(), &vec!["a", "b", "xs", "ys", "t"]);
    assert_eq!(
        schema.parse(&mut Reader::new("1 2\n-1 -2\n\n7\n  the end \n")),
        Ok(vec![
            unsigned(1),
            unsigned(2),
            FieldValue::Rows(vec![LineValue::Many(vec![Scalar::Signed(-1), Scalar::Signed(-2)])]),
            FieldValue::Rows(vec![
                LineValue::Many(vec![]),
                LineValue::Many(vec![Scalar::Signed(7)])
            ]),
            text("the end"),
        ])
    );
}

#[test]
fn field_alone_on_its_line_is_read_as_its_type_says() {
    let schema = compile(&record(vec![
        declared("title", "String", &[]),
        declared(
            "xs",
            "Vec<Vec<u8>>",
            &["testcase(lines = \"0\")"],
        ),
        declared("point", "[i16; 2]", &[]),
    ]))
    .unwrap();
    assert_eq!(
        schema.parse(&mut Reader::new("  two words \n-1 1\n")),
        Ok(vec![
            text("two words"),
            FieldValue::Rows(vec![]),
            FieldValue::Line(LineValue::Many(vec![Scalar::Signed(-1), Scalar::Signed(1)])),
        ])
    );
    assert_eq!(
        schema.parse(&mut Reader::new("t\n1 2 3\n")),
        Err(RecordError {
            block: 2,
            cause: Cause::Parse(ParseError::WrongSize { expected: 2, found: 3 })
        })
    );
}

#[test]
fn compiling_twice_gives_the_same_blocks() {
    let decl = record(vec![
        declared("n", "usize", &["testcase(inline)"]),
        declared(
            "edges",
            "Vec<(u64, u64)>",
            &["testcase(lines = \"n\")"],
        ),
    ]);
    assert_eq!(compile(&decl), compile(&decl));
    assert_eq!(compile(&decl).unwrap(), edges_schema());
    let fields = || {
        vec![
            Annotated { field: single("n", Primitive::Usize), attribute: Attribute::Inline },
            Annotated {
                field: rows("edges", LineType::Tuple(vec![Primitive::U64, Primitive::U64])),
                attribute: Attribute::Lines { count: CountExpr::Field("n".to_string()) },
            },
        ]
    };
    assert_eq!(build(&fields()), build(&fields()));
    assert_eq!(build(&fields()).unwrap(), edges_schema());
}

#[test]
fn array_row_converts_before_it_counts() {
    let schema = compile(&record(vec![declared("point", "[i16; 2]", &[])])).unwrap();
    let failure = |input: &str| schema.parse(&mut Reader::new(input)).unwrap_err().cause;
    assert_eq!(
        failure("1 x 3\n"),
        Cause::Parse(ParseError::Conversion { slot: 1, kind: ConversionError::InvalidDigit })
    );
    assert_eq!(failure("1 2 3\n"), Cause::Parse(ParseError::WrongSize { expected: 2, found: 3 }));
    assert_eq!(failure("\n"), Cause::Parse(ParseError::WrongSize { expected: 2, found: 0 }));
}

#[test]
fn count_divides_and_takes_remainders() {
    let schema = compile(&record(vec![
        declared("n", "u8", &[]),
        declared("k", "u8", &[]),
        declared("xs", "Vec<u8>", &["testcase(lines = \"n / k + n % k\")"]),
    ]))
    .unwrap();
    let parsed = schema.parse(&mut Reader::new("7 3\n1\n2\n3\n4\n")).unwrap();
    assert_eq!(parsed[2], FieldValue::Rows(vec![
        LineValue::Single(Scalar::Unsigned(1)),
        LineValue::Single(Scalar::Unsigned(2)),
        LineValue::Single(Scalar::Unsigned(3)),
    ]));
    assert_eq!(
        schema.parse(&mut Reader::new("7 0\n1\n")),
        Err(RecordError { block: 1, cause: Cause::Count })
    );
}

#[test]
fn only_a_struct_with_named_fields_has_a_schema() {
    for kind in
        [RecordKind::TupleStruct, RecordKind::UnitStruct, RecordKind::Enum, RecordKind::Union]
    {
        let decl = RecordDecl { name: "Test".to_string(), kind, fields: vec![] };
        assert_eq!(compile(&decl), Err(SchemaError::UnsupportedRecord));
    }
    let empty = compile(&record(vec![])).unwrap();
    assert_eq!(empty.parse(&mut Reader::new("kept\n")), Ok(vec![]));
    let mut unnamed = declared("x", "u8", &[]);
    unnamed.name = None;
    assert_eq!(
        compile(&record(vec![
            declared("n", "u8", &[]),
            unnamed
        ])),
        Err(SchemaError::Unnamed { field: 1 })
    );
}

#[test]
fn schema_names_the_field_with_a_bad_annotation() {
    let n = || declared("n", "u8", &[]);
    let with = |annotations: &[&str]| {
        compile(&record(vec![n(), declared("xs", "Vec<Vec<u8>>", annotations)]))
    };
    assert_eq!(
        with(&["testcase()"]),
        Err(SchemaError::Attribute { field: 1, kind: AttributeError::Missing })
    );
    assert_eq!(
        with(&["testcase(lines = \"n\")", "testcase(inline)"]),
        Err(SchemaError::Attribute { field: 1, kind: AttributeError::Duplicate })
    );
    assert_eq!(
        with(&["testcase(rows = \"n\")"]),
        Err(SchemaError::Attribute { field: 1, kind: AttributeError::Malformed })
    );
    assert_eq!(with(&["testcase(lines = \"m\")"]), Err(SchemaError::Reference { field: 1 }));
    assert_eq!(with(&["testcase(lines = \"xs\")"]), Err(SchemaError::Reference { field: 1 }));
    assert_eq!(with(&["testcase(inline)"]), Err(SchemaError::Declared { field: 1 }));
    assert!(with(&["testcase(lines = \"n\")"]).is_ok());
}

#[test]
fn count_reads_only_earlier_integers() {
    let decl = |first: &str| {
        record(vec![
            declared("n", first, &[]),
            declared(
                "xs",
                "Vec<Vec<u8>>",
                &["testcase(lines = \"n\")"],
            ),
            declared("late", "u8", &[]),
        ])
    };
    assert!(compile(&decl("i8")).is_ok());
    assert_eq!(compile(&decl("String")), Err(SchemaError::Reference { field: 1 }));
    let later = record(vec![
        declared(
            "xs",
            "Vec<Vec<u8>>",
            &["testcase(lines = \"late\")"],
        ),
        declared("late", "u8", &[]),
    ]);
    assert_eq!(compile(&later), Err(SchemaError::Reference { field: 0 }));
}

#[test]
fn schema_rejects_types_that_do_not_fit() {
    assert!(compile(&record(vec![declared("xs", "Vec<u8>", &[])])).is_ok());
    assert_eq!(
        compile(&record(vec![declared("n", "u8", &[]), declared("xs", "Vec<u8>", &[])])),
        Err(SchemaError::Type { field: 1 })
    );
    assert_eq!(
        compile(&record(vec![declared("n", "u8", &["testcase(lines = \"1\")"])])),
        Err(SchemaError::Declared { field: 0 })
    );
    assert_eq!(
        compile(&record(vec![declared("n", "u8", &[]), declared("x", "f64", &[])])),
        Err(SchemaError::Declared { field: 1 })
    );
    assert_eq!(
        compile(&record(vec![declared("t", "()", &[])])),
        Err(SchemaError::Type { field: 0 })
    );
    let eleven = format!("({})", "u8, ".repeat(11));
    assert_eq!(
        compile(&record(vec![declared("t", &eleven, &[])])),
        Err(SchemaError::Type { field: 0 })
    );
    let ten = format!("({})", "u8, ".repeat(10));
    assert!(compile(&record(vec![declared("t", &ten, &[])])).is_ok());
    let wide: Vec<FieldDecl> = (0..11).map(|i| declared(&format!("f{}", i), "u8", &[])).collect();
    assert_eq!(compile(&record(wide)), Err(SchemaError::TooWide { field: 10 }));
    let widest: Vec<FieldDecl> =
        (0..10).map(|i| declared(&format!("f{}", i), "u8", &[])).collect();
    assert!(compile(&record(widest)).is_ok());
    assert_eq!(
        Schema::new(vec![
            FieldBlock::Inline(vec![single("n", Primitive::U8)]),
            FieldBlock::Inline(vec![])
        ]),
        Err(SchemaError::Empty { field: 1 })
    );
    assert_eq!(
        Schema::new(vec![FieldBlock::Inline(vec![rows("xs", LineType::Single(Primitive::U8))])]),
        Err(SchemaError::Type { field: 0 })
    );
    assert_eq!(
        Schema::new(vec![FieldBlock::Lines {
            field: single("n", Primitive::U8),
            count: CountExpr::Literal(1)
        }]),
        Err(SchemaError::Type { field: 0 })
    );
}

#[test]
fn truth_values_and_characters_are_fields() {
    let schema = compile(&record(vec![
        declared("yes", "bool", &[]),
        declared("c", "char", &[]),
        declared("grid", "Vec<Vec<char>>", &["testcase(lines = \"2\")"]),
    ]))
    .unwrap();
    let row = |a, b| LineValue::Many(vec![Scalar::Char(a), Scalar::Char(b)]);
    assert_eq!(
        schema.parse(&mut Reader::new("true x\n# .\n. #\n")),
        Ok(vec![
            FieldValue::Line(LineValue::Single(Scalar::Bool(true))),
            FieldValue::Line(LineValue::Single(Scalar::Char('x'))),
            FieldValue::Rows(vec![row('#', '.'), row('.', '#')]),
        ])
    );
    assert_eq!(
        schema.parse(&mut Reader::new("1 x\n")),
        Err(RecordError {
            block: 0,
            cause: Cause::Parse(ParseError::Conversion { slot: 0, kind: ConversionError::NotBool })
        })
    );
    assert_eq!(
        schema.parse(&mut Reader::new("false xy\n")),
        Err(RecordError {
            block: 0,
            cause: Cause::Parse(ParseError::Conversion { slot: 1, kind: ConversionError::NotChar })
        })
    );
    let counted = compile(&record(vec![
        declared("yes", "bool", &[]),
        declared("xs", "Vec<u8>", &["testcase(lines = \"yes\")"]),
    ]));
    assert_eq!(counted, Err(SchemaError::Reference { field: 1 }));
}
