use testcase::source::{
    array, parse_field_type, parse_line_type, primitive, rows, sequence, single, tuple, MAX_PARENS,
};
use testcase::syntax::is_admitted;
use testcase::types::{FieldType, LineType, Primitive};

#[test]
fn type_of_a_line_is_read_from_text() {
    let line = |text: &str| parse_line_type(text, MAX_PARENS);
    assert_eq!(line("u8"), Some(LineType::Single(Primitive::U8)));
    assert_eq!(line("isize"), Some(LineType::Single(Primitive::Isize)));
    assert_eq!(line("String"), Some(LineType::Single(Primitive::Text)));
    assert_eq!(line("bool"), Some(LineType::Single(Primitive::Bool)));
    assert_eq!(line("Vec<char>"), Some(LineType::Sequence(Primitive::Char)));
    assert_eq!(line("std::string::String"), Some(LineType::Single(Primitive::Text)));
    assert_eq!(line("x::u32"), Some(LineType::Single(Primitive::U32)));
    assert_eq!(line("(u8)"), Some(LineType::Single(Primitive::U8)));
    assert_eq!(line("(u8,)"), Some(LineType::Tuple(vec![Primitive::U8])));
    assert_eq!(
        line("(usize, String, i32)"),
        Some(LineType::Tuple(vec![Primitive::Usize, Primitive::Text, Primitive::I32]))
    );
    assert_eq!(line("()"), Some(LineType::Tuple(vec![])));
    assert_eq!(line("[i64; 3]"), Some(LineType::Array(Primitive::I64, 3)));
    assert_eq!(line("[i64; 0]"), Some(LineType::Array(Primitive::I64, 0)));
    assert_eq!(line("[u8; 2usize]"), Some(LineType::Array(Primitive::U8, 2)));
    assert_eq!(line("[u8; 1_0]"), Some(LineType::Array(Primitive::U8, 10)));
    assert_eq!(line("Vec<u128>"), Some(LineType::Sequence(Primitive::U128)));
    assert_eq!(line("std::vec::Vec<u128>"), Some(LineType::Sequence(Primitive::U128)));
    assert_eq!(line("Vec<(String)>"), Some(LineType::Sequence(Primitive::Text)));
}

#[test]
fn type_that_cannot_be_read_is_refused() {
    let line = |text: &str| parse_line_type(text, MAX_PARENS);
    assert_eq!(line("f64"), None);
    assert_eq!(line("Bool"), None);
    assert_eq!(line("&str"), None);
    assert_eq!(line("Vec<(u8, u8)>"), None);
    assert_eq!(line("Vec<Vec<u8>>"), None);
    assert_eq!(line("Vec<u8, u8>"), None);
    assert_eq!(line("Vec<3>"), None);
    assert_eq!(line("Vec"), None);
    assert_eq!(line("Option<u8>"), None);
    assert_eq!(line("u8<u8>"), None);
    assert_eq!(line("<u8 as A>::B"), None);
    assert_eq!(line("(u8, (u8, u8))"), None);
    assert_eq!(line("[u8; N]"), None);
    assert_eq!(line("[u8; 2 + 1]"), None);
    assert_eq!(line("[[u8; 2]; 2]"), None);
    assert_eq!(line("fn(u8)"), None);
    assert_eq!(line("not a type"), None);
    assert_eq!(line(""), None);
    assert_eq!(line("[u8; c\"x\"]"), None);
    assert_eq!(line("(/*ERROR*/)"), None);
    assert_eq!(line(&("(".repeat(9) + "u8" + &")".repeat(9))), None);
    assert_eq!(
        line(&("(".repeat(8) + "u8" + &")".repeat(8))),
        Some(LineType::Single(Primitive::U8))
    );
    assert_eq!(line(&("u".repeat(161))), None);
}

#[test]
fn type_of_a_counted_field_is_a_vec_of_rows() {
    let rows = |text: &str| parse_field_type(text, true, MAX_PARENS);
    assert_eq!(rows("Vec<u8>"), Some(FieldType::Rows(LineType::Single(Primitive::U8))));
    assert_eq!(rows("Vec<Vec<u8>>"), Some(FieldType::Rows(LineType::Sequence(Primitive::U8))));
    assert_eq!(
        rows("Vec<(u64, u64)>"),
        Some(FieldType::Rows(LineType::Tuple(vec![Primitive::U64, Primitive::U64])))
    );
    assert_eq!(rows("Vec<[u32; 2]>"), Some(FieldType::Rows(LineType::Array(Primitive::U32, 2))));
    assert_eq!(rows("Vec<String>"), Some(FieldType::Rows(LineType::Single(Primitive::Text))));
    assert_eq!(rows("(Vec<u8>)"), Some(FieldType::Rows(LineType::Single(Primitive::U8))));
    assert_eq!(rows("u8"), None);
    assert_eq!(rows("(u8, u8)"), None);
    assert_eq!(rows("Vec<Vec<Vec<u8>>>"), None);
    assert_eq!(
        parse_field_type("Vec<u8>", false, MAX_PARENS),
        Some(FieldType::Line(LineType::Sequence(Primitive::U8)))
    );
}

#[test]
fn primitive_is_known_by_its_name() {
    assert_eq!(primitive("u8"), Some(Primitive::U8));
    assert_eq!(primitive("i128"), Some(Primitive::I128));
    assert_eq!(primitive("String"), Some(Primitive::Text));
    assert_eq!(primitive("string"), None);
    assert_eq!(primitive("u7"), None);
    assert_eq!(primitive(""), None);
}

#[test]
fn type_nested_as_deep_as_admitted() {
    let line = |text: &str| parse_line_type(text, MAX_PARENS);
    for (open, close) in [
        ("(", ",)"),
        ("[", "; 1]"),
        ("[", "]"),
        ("A<", ">"),
        ("A<B, ", ">"),
        ("fn(", ")"),
        ("fn() -> (", ")"),
        ("<", " as A>::B"),
        ("*(", ")"),
        ("&(", ")"),
        ("&[", "]"),
        ("a!(", ")"),
        ("Vec<", ">"),
    ] {
        let marks = (open.to_string() + close)
            .chars()
            .filter(|c| !c.is_alphanumeric() && *c != ' ')
            .count();
        let times = 24 / marks;
        let text = open.repeat(times) + "u8" + &close.repeat(times);
        assert!(is_admitted(&text), "{}", open);
        assert_eq!(line(&text), None, "{}", open);
    }
    for prefix in ["*", "*const ", "A::", "fn() -> ", "dyn A + ", "&", "&mut ", "!", "a!"] {
        let marks = prefix.chars().filter(|c| !c.is_alphanumeric() && *c != ' ').count();
        let text = prefix.repeat((24 / marks).min(158 / prefix.len())) + "u8";
        assert!(is_admitted(&text), "{}", prefix);
        assert!(prefix == "A::" || line(&text) == None, "{}", prefix);
    }
    for prefix in ["dyn ", "impl ", "mut ", "const ", "unsafe ", "extern ", "fn ", "for ", "A "] {
        let text = prefix.repeat(158 / prefix.len()) + "u8";
        assert!(is_admitted(&text), "{}", prefix);
        assert_eq!(line(&text), None, "{}", prefix);
    }
}

#[test]
fn parts_of_a_type_decide_what_it_is_read_as() {
    assert_eq!(single("u8"), Some(LineType::Single(Primitive::U8)));
    assert_eq!(single("Vec"), None);
    assert_eq!(sequence("Vec", Some(Primitive::U8)), Some(LineType::Sequence(Primitive::U8)));
    assert_eq!(sequence("Vec", None), None);
    assert_eq!(sequence("Option", Some(Primitive::U8)), None);
    assert_eq!(array(Some(Primitive::I8), "3", ""), Some(LineType::Array(Primitive::I8, 3)));
    assert_eq!(array(Some(Primitive::I8), "3", "usize"), Some(LineType::Array(Primitive::I8, 3)));
    assert_eq!(array(Some(Primitive::I8), "3", "u8"), None);
    assert_eq!(array(Some(Primitive::I8), "", ""), None);
    assert_eq!(array(None, "3", ""), None);
    assert_eq!(
        tuple(&vec![Some(Primitive::U8), Some(Primitive::Text)]),
        Some(LineType::Tuple(vec![Primitive::U8, Primitive::Text]))
    );
    assert_eq!(tuple(&vec![]), Some(LineType::Tuple(vec![])));
    assert_eq!(tuple(&vec![Some(Primitive::U8), None]), None);
    assert_eq!(
        rows("Vec", Some(LineType::Single(Primitive::U8))),
        Some(FieldType::Rows(LineType::Single(Primitive::U8)))
    );
    assert_eq!(rows("Vec", None), None);
    assert_eq!(rows("Box", Some(LineType::Single(Primitive::U8))), None);
}
