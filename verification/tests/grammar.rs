use testcase::attribute::{
    meaning, read_annotation, select, Annotation, Attribute, Directive, Meaning,
};
use testcase::decl::FieldDecl;
use testcase::error::{AttributeError, ExpressionError};
use testcase::expr::{count_of, number, parse_count, read_count, CountExpr, ExprTree, Operator};
use testcase::syntax::is_admitted;

fn field(annotations: &[&str]) -> FieldDecl {
    FieldDecl {
        name: Some("x".to_string()),
        ty: "u32".to_string(),
        annotations: annotations.iter().map(|a| a.to_string()).collect(),
    }
}

fn name(n: &str) -> Box<CountExpr> {
    Box::new(CountExpr::Field(n.to_string()))
}

fn literal(n: usize) -> Box<CountExpr> {
    Box::new(CountExpr::Literal(n))
}

#[test]
fn count_is_a_name_or_a_number() {
    assert_eq!(parse_count("n"), Ok(CountExpr::Field("n".to_string())));
    assert_eq!(parse_count(" rows "), Ok(CountExpr::Field("rows".to_string())));
    assert_eq!(parse_count("2"), Ok(CountExpr::Literal(2)));
    assert_eq!(parse_count("0"), Ok(CountExpr::Literal(0)));
    assert_eq!(parse_count("1_000"), Ok(CountExpr::Literal(1000)));
    assert_eq!(parse_count("2usize"), Ok(CountExpr::Literal(2)));
    assert_eq!(parse_count("1_0usize"), Ok(CountExpr::Literal(10)));
}

#[test]
fn count_combines_names_and_numbers() {
    assert_eq!(
        parse_count("n - 1"),
        Ok(CountExpr::Binary(Operator::Minus, name("n"), literal(1)))
    );
    assert_eq!(parse_count("n / 2"), Ok(CountExpr::Binary(Operator::Over, name("n"), literal(2))));
    assert_eq!(
        parse_count("n % k"),
        Ok(CountExpr::Binary(Operator::Modulo, name("n"), name("k")))
    );
    assert_eq!(
        parse_count("(n+1)*m"),
        Ok(CountExpr::Binary(
            Operator::Times,
            Box::new(CountExpr::Binary(Operator::Plus, name("n"), literal(1))),
            name("m")
        ))
    );
    assert_eq!(
        parse_count("a + b * c"),
        Ok(CountExpr::Binary(
            Operator::Plus,
            name("a"),
            Box::new(CountExpr::Binary(Operator::Times, name("b"), name("c")))
        ))
    );
    assert_eq!(
        parse_count("a - b - c"),
        Ok(CountExpr::Binary(
            Operator::Minus,
            Box::new(CountExpr::Binary(Operator::Minus, name("a"), name("b"))),
            name("c")
        ))
    );
}

#[test]
fn count_rejects_what_is_no_count() {
    assert_eq!(parse_count(""), Err(ExpressionError::Invalid));
    assert_eq!(parse_count("n +"), Err(ExpressionError::Invalid));
    assert_eq!(parse_count("(n"), Err(ExpressionError::Invalid));
    assert_eq!(parse_count("n as usize"), Err(ExpressionError::Unsupported));
    assert_eq!(parse_count("-1"), Err(ExpressionError::Unsupported));
    assert_eq!(parse_count("n < 2"), Err(ExpressionError::Unsupported));
    assert_eq!(parse_count("a::b"), Err(ExpressionError::Unsupported));
    assert_eq!(parse_count("f(n)"), Err(ExpressionError::Unsupported));
    assert_eq!(parse_count("\"n\""), Err(ExpressionError::Unsupported));
    assert_eq!(parse_count("true"), Err(ExpressionError::Unsupported));
    assert_eq!(parse_count("!n"), Err(ExpressionError::Unsupported));
    assert_eq!(parse_count("&n"), Err(ExpressionError::Unsupported));
    assert_eq!(parse_count("|| n"), Err(ExpressionError::Unsupported));
    assert_eq!(parse_count("|a, b| a ^ b"), Err(ExpressionError::Unsupported));
    assert_eq!(parse_count("n?"), Err(ExpressionError::Unsupported));
    assert_eq!(parse_count("a!(n)"), Err(ExpressionError::Unsupported));
    assert_eq!(parse_count("n & m"), Err(ExpressionError::Unsupported));
    assert_eq!(parse_count("n || m"), Err(ExpressionError::Unsupported));
    assert_eq!(
        parse_count("340282366920938463463374607431768211456"),
        Err(ExpressionError::Literal)
    );
    let deep = "n * ".repeat(17) + "n";
    assert_eq!(parse_count(&deep), Err(ExpressionError::TooDeep));
}

#[test]
fn count_refuses_what_is_not_admitted() {
    let refused = Err(ExpressionError::Refused);
    for text in [
        "c\"x\"",
        "b\"x\"",
        "r\"x\"",
        "n + c\"x\"",
        "(/*ERROR*/)",
        "n /* two */",
        "n // two",
        "0x10",
        "2u8",
        "2e3",
        "1e",
        "0b",
        "2.5",
        "'a'",
        "n.len()",
        "{ n }",
        "#n",
        "n @ m",
        "~n",
        "$n",
        "`n`",
        "\"a\\\"b\"",
        "\"n\"x",
        "\u{e9}",
    ] {
        assert!(!is_admitted(text), "{}", text);
        assert_eq!(parse_count(text), refused, "{}", text);
    }
    let long = "n".repeat(161);
    assert_eq!(parse_count(&long), refused);
    let long = "n".repeat(160);
    assert_eq!(parse_count(&long), Ok(CountExpr::Field(long.clone())));
    let sums = "n+".repeat(25) + "n";
    assert_eq!(parse_count(&sums), refused);
    let parens = "(".repeat(13) + "n" + &")".repeat(13);
    assert_eq!(parse_count(&parens), refused);
    let parens = "(".repeat(12) + "n" + &")".repeat(12);
    assert_eq!(parse_count(&parens), Ok(CountExpr::Field("n".to_string())));
}

#[test]
fn count_nested_as_deep_as_admitted() {
    for (open, close) in
        [("(", ")"), ("[", "]"), ("a(", ")"), ("a[", "]"), ("A::<", ">"), ("(a,", ")"), ("-(", ")"),
            ("a!(", ")"), ("&(", ")"), ("|a| (", ")"), ("!(", ")?")]
    {
        let marks = (open.to_string() + close).chars().filter(|c| !c.is_alphanumeric()).count();
        let times = 24 / marks;
        let text = open.repeat(times) + "n" + &close.repeat(times);
        assert!(is_admitted(&text), "{}", open);
        assert!(open == "(" || parse_count(&text).is_err(), "{}", open);
    }
    for prefix in [
        "-", "*", "a = ", "a < ", "a - ", "- - ", "!", "&", "&mut ", "|| ", "|a| ", "a?", "a && ",
        "a | ", "a ^ ", "a!", "move || ",
    ] {
        let marks = prefix.chars().filter(|c| !c.is_alphanumeric() && *c != ' ').count();
        let text = prefix.repeat(24 / marks) + "n";
        assert!(is_admitted(&text), "{}", prefix);
        assert!(parse_count(&text).is_err(), "{}", prefix);
    }
    for prefix in ["return ", "break ", "a as ", "box ", "if a ", "match ", "dyn ", "a ", "in "] {
        let text = prefix.repeat(159 / prefix.len()) + "n";
        assert!(is_admitted(&text), "{}", prefix);
        assert!(parse_count(&text).is_err(), "{}", prefix);
    }
}

#[test]
fn literal_is_a_decimal_number_that_fits() {
    assert_eq!(number("12", ""), Ok(12));
    assert_eq!(number("12", "usize"), Ok(12));
    assert_eq!(number("12", "u8"), Err(ExpressionError::Literal));
    assert_eq!(number("", ""), Err(ExpressionError::Literal));
    assert_eq!(number("1x", ""), Err(ExpressionError::Literal));
    assert_eq!(number("99999999999999999999999999999", ""), Err(ExpressionError::Literal));
}

#[test]
fn field_without_annotation_has_no_attribute() {
    assert_eq!(Attribute::for_field(&field(&[])), Ok(Attribute::Absent));
    assert_eq!(
        Attribute::for_field(&field(&["doc = \" The count.\"", "allow(unused)", "cold"])),
        Ok(Attribute::Absent)
    );
}

#[test]
fn annotation_under_another_name_says_nothing() {
    let long = format!("doc = \" {}\"", "A long remark, with marks: (a) [b] {c} <d> !?#&|'\\ ".repeat(20));
    assert!(long.len() > 160);
    assert_eq!(read_annotation(&long), Annotation::Unrelated);
    assert_eq!(Attribute::for_field(&field(&[&long])), Ok(Attribute::Absent));
    assert_eq!(
        Attribute::for_field(&field(&[&long, "testcase(inline)", &long])),
        Ok(Attribute::Inline)
    );
    for other in [
        "not an attribute ]",
        "",
        "  ",
        "doc = c\"x\"",
        "(/*ERROR*/)",
        "::testcase(inline)",
        "r#testcase(inline)",
        "testcases(inline)",
        "Testcase(inline)",
        "test(inline)",
        "a::testcase(inline)",
        "testcase::a(inline)",
    ] {
        assert_eq!(read_annotation(other), Annotation::Unrelated, "{}", other);
        assert_eq!(Attribute::for_field(&field(&[other])), Ok(Attribute::Absent), "{}", other);
    }
}

#[test]
fn field_marked_inline() {
    assert_eq!(Attribute::for_field(&field(&["testcase(inline)"])), Ok(Attribute::Inline));
    assert_eq!(
        Attribute::for_field(&field(&["doc = \"x\"", " testcase ( inline ) "])),
        Ok(Attribute::Inline)
    );
}

#[test]
fn field_counted_by_an_expression() {
    assert_eq!(
        Attribute::for_field(&field(&["testcase(lines = \"n\")"])),
        Ok(Attribute::Lines { count: CountExpr::Field("n".to_string()) })
    );
    assert_eq!(
        Attribute::for_field(&field(&["testcase(lines = \"2\")"])),
        Ok(Attribute::Lines { count: CountExpr::Literal(2) })
    );
    assert_eq!(
        Attribute::for_field(&field(&["testcase(lines = \"n as usize\")"])),
        Err(AttributeError::Expression(ExpressionError::Unsupported))
    );
    assert_eq!(
        Attribute::for_field(&field(&["testcase(lines = \"n.len()\")"])),
        Err(AttributeError::Expression(ExpressionError::Refused))
    );
    assert_eq!(
        Attribute::for_field(&field(&["testcase(lines = \"\")"])),
        Err(AttributeError::Expression(ExpressionError::Invalid))
    );
}

#[test]
fn annotation_is_read_into_its_directives() {
    assert_eq!(
        read_annotation("testcase(inline, lines = \"n\", 3, a(b), c = 4)"),
        Annotation::Directives(vec![
            Directive::Word("inline".to_string()),
            Directive::Text("lines".to_string(), "n".to_string()),
            Directive::Other,
            Directive::Other,
            Directive::Other,
        ])
    );
    assert_eq!(read_annotation("testcase()"), Annotation::Directives(vec![]));
    assert_eq!(read_annotation("testcase"), Annotation::Malformed);
    assert_eq!(read_annotation("testcase = \"inline\""), Annotation::Malformed);
    assert_eq!(read_annotation("testcase = 3"), Annotation::Malformed);
    assert_eq!(read_annotation("testcase(lines = n)"), Annotation::Malformed);
    assert_eq!(read_annotation("testcase(lines = c\"n\")"), Annotation::Malformed);
    assert_eq!(read_annotation("testcase(lines = \"a\\\"b\")"), Annotation::Malformed);
    assert_eq!(read_annotation("testcase(!)"), Annotation::Malformed);
    assert_eq!(read_annotation("testcase(inline"), Annotation::Malformed);
    let nested = "testcase(".to_string() + &"a(".repeat(12) + "b" + &")".repeat(13);
    assert_eq!(read_annotation(&nested), Annotation::Malformed);
    let nested = "testcase(".to_string() + &"a(".repeat(11) + "b" + &")".repeat(12);
    assert_eq!(read_annotation(&nested), Annotation::Directives(vec![Directive::Other]));
}

#[test]
fn one_directive_is_selected() {
    let inline = || Directive::Word("inline".to_string());
    assert_eq!(select(&vec![]), Ok(None));
    assert_eq!(select(&vec![Annotation::Unrelated, Annotation::Unrelated]), Ok(None));
    assert_eq!(
        select(&vec![Annotation::Unrelated, Annotation::Directives(vec![inline()])]),
        Ok(Some(inline()))
    );
    assert_eq!(select(&vec![Annotation::Directives(vec![])]), Err(AttributeError::Missing));
    assert_eq!(
        select(&vec![Annotation::Directives(vec![inline(), inline()])]),
        Err(AttributeError::Duplicate)
    );
    assert_eq!(
        select(&vec![Annotation::Directives(vec![inline()]), Annotation::Directives(vec![])]),
        Err(AttributeError::Duplicate)
    );
    assert_eq!(
        select(&vec![Annotation::Directives(vec![inline()]), Annotation::Malformed]),
        Err(AttributeError::Malformed)
    );
}

#[test]
fn directive_is_inline_or_lines() {
    assert_eq!(meaning(&Directive::Word("inline".to_string())), Ok(Meaning::Inline));
    assert_eq!(
        meaning(&Directive::Text("lines".to_string(), "n".to_string())),
        Ok(Meaning::Lines("n".to_string()))
    );
    let malformed = Err(AttributeError::Malformed);
    assert_eq!(meaning(&Directive::Word("line".to_string())), malformed);
    assert_eq!(meaning(&Directive::Word("lines".to_string())), malformed);
    assert_eq!(meaning(&Directive::Text("count".to_string(), "n".to_string())), malformed);
    assert_eq!(meaning(&Directive::Text("inline".to_string(), "n".to_string())), malformed);
    assert_eq!(meaning(&Directive::Other), malformed);
}

#[test]
fn field_with_a_directive_that_is_none() {
    let malformed = Err(AttributeError::Malformed);
    assert_eq!(Attribute::for_field(&field(&["testcase(line)"])), malformed);
    assert_eq!(Attribute::for_field(&field(&["testcase(lines = n)"])), malformed);
    assert_eq!(Attribute::for_field(&field(&["testcase(lines = 2)"])), malformed);
    assert_eq!(Attribute::for_field(&field(&["testcase(count = \"n\")"])), malformed);
    assert_eq!(Attribute::for_field(&field(&["testcase(\"inline\")"])), malformed);
    assert_eq!(Attribute::for_field(&field(&["testcase(inline(x))"])), malformed);
    assert_eq!(Attribute::for_field(&field(&["testcase"])), malformed);
    assert_eq!(Attribute::for_field(&field(&["testcase = \"inline\""])), malformed);
}

#[test]
fn field_with_no_or_two_directives() {
    assert_eq!(Attribute::for_field(&field(&["testcase()"])), Err(AttributeError::Missing));
    assert_eq!(
        Attribute::for_field(&field(&["testcase(inline, lines = \"n\")"])),
        Err(AttributeError::Duplicate)
    );
    assert_eq!(
        Attribute::for_field(&field(&["testcase(inline)", "testcase(inline)"])),
        Err(AttributeError::Duplicate)
    );
}

#[test]
fn expression_is_read_as_it_is_written() {
    let n = || Box::new(ExprTree::Name("n".to_string()));
    assert_eq!(read_count("n"), Some(ExprTree::Name("n".to_string())));
    assert_eq!(read_count("1_0usize"), Some(ExprTree::Number("10".to_string(), "usize".to_string())));
    assert_eq!(
        read_count("(n) < n"),
        Some(ExprTree::Binary(None, Box::new(ExprTree::Nested(n())), n()))
    );
    assert_eq!(read_count("n + n"), Some(ExprTree::Binary(Some(Operator::Plus), n(), n())));
    assert_eq!(read_count("f(n)"), Some(ExprTree::Other));
    assert_eq!(read_count("n +"), None);
    assert_eq!(read_count("n.len()"), None);
    assert_eq!(read_count("c\"x\""), None);
}

#[test]
fn count_is_what_the_written_expression_stands_for() {
    let n = || Box::new(ExprTree::Name("n".to_string()));
    let two = || Box::new(ExprTree::Number("2".to_string(), String::new()));
    assert_eq!(count_of(&ExprTree::Name("n".to_string())), Ok(CountExpr::Field("n".to_string())));
    assert_eq!(count_of(&two()), Ok(CountExpr::Literal(2)));
    assert_eq!(
        count_of(&ExprTree::Number("2".to_string(), "u8".to_string())),
        Err(ExpressionError::Literal)
    );
    assert_eq!(
        count_of(&ExprTree::Nested(Box::new(ExprTree::Binary(Some(Operator::Modulo), n(), two())))),
        Ok(CountExpr::Binary(Operator::Modulo, name("n"), literal(2)))
    );
    assert_eq!(
        count_of(&ExprTree::Binary(None, n(), Box::new(ExprTree::Deep))),
        Err(ExpressionError::Unsupported)
    );
    assert_eq!(
        count_of(&ExprTree::Binary(
            Some(Operator::Plus),
            Box::new(ExprTree::Deep),
            Box::new(ExprTree::Other)
        )),
        Err(ExpressionError::TooDeep)
    );
    assert_eq!(
        count_of(&ExprTree::Binary(Some(Operator::Plus), n(), Box::new(ExprTree::Other))),
        Err(ExpressionError::Unsupported)
    );
}
