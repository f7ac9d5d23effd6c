use testcase::error::HarnessError;
use testcase::harness::{
    accept_args, case_line, check_args, check_solution, parse_args, read_parameter, Parameter,
    TestArgs,
};

fn args(list: &[&str]) -> Vec<String> {
    list.iter().map(|a| a.to_string()).collect()
}

#[test]
fn harness_without_parameters_has_no_self_test() {
    assert_eq!(parse_args(&args(&[])), Ok(None));
}

#[test]
fn harness_with_input_and_output_has_a_self_test() {
    let expected =
        Ok(Some(TestArgs { input: "in.txt".to_string(), output: "out.txt".to_string() }));
    assert_eq!(parse_args(&args(&["input = \"in.txt\"", "output = \"out.txt\""])), expected);
    assert_eq!(parse_args(&args(&["output = \"out.txt\"", "input = \"in.txt\""])), expected);
    assert_eq!(
        parse_args(&args(&["input = \"old\"", "output = \"out.txt\"", "input = \"in.txt\""])),
        expected
    );
    assert_eq!(
        parse_args(&args(&["input = \"tests/data/in-1.txt\"", "output = \"../out 1.txt\""])),
        Ok(Some(TestArgs {
            input: "tests/data/in-1.txt".to_string(),
            output: "../out 1.txt".to_string()
        }))
    );
}

#[test]
fn harness_with_half_a_self_test() {
    assert_eq!(parse_args(&args(&["input = \"in.txt\""])), Err(HarnessError::Incomplete));
    assert_eq!(parse_args(&args(&["output = \"out.txt\""])), Err(HarnessError::Incomplete));
}

#[test]
fn harness_with_a_parameter_it_does_not_know() {
    assert_eq!(
        parse_args(&args(&["input = \"in.txt\"", "expect = \"out.txt\""])),
        Err(HarnessError::Unrecognised { parameter: 1 })
    );
    assert_eq!(
        parse_args(&args(&["expect = 3"])),
        Err(HarnessError::Unrecognised { parameter: 0 })
    );
    assert_eq!(
        parse_args(&args(&["input = 3", "output = \"out.txt\""])),
        Err(HarnessError::Literal { parameter: 0 })
    );
    assert_eq!(parse_args(&args(&["input"])), Err(HarnessError::Form { parameter: 0 }));
    assert_eq!(
        parse_args(&args(&["input = \"a\"", "output(\"b\")"])),
        Err(HarnessError::Form { parameter: 1 })
    );
    assert_eq!(parse_args(&args(&["\"in.txt\""])), Err(HarnessError::Form { parameter: 0 }));
    assert_eq!(parse_args(&args(&[""])), Err(HarnessError::Form { parameter: 0 }));
    assert_eq!(
        parse_args(&args(&["input = \"a\\\\b\""])),
        Err(HarnessError::Form { parameter: 0 })
    );
    assert_eq!(parse_args(&args(&["input = c\"a\""])), Err(HarnessError::Form { parameter: 0 }));
}

#[test]
fn parameter_is_read_from_text() {
    assert_eq!(
        read_parameter("input = \"in.txt\""),
        Parameter::Text("input".to_string(), "in.txt".to_string())
    );
    assert_eq!(read_parameter("input = 3"), Parameter::Value("input".to_string()));
    assert_eq!(read_parameter("input"), Parameter::Other);
    assert_eq!(read_parameter("a::b = \"x\""), Parameter::Other);
    assert_eq!(read_parameter("input = c\"x\""), Parameter::Other);
}

#[test]
fn parameters_are_checked_as_they_stand() {
    let text = |key: &str, value: &str| Parameter::Text(key.to_string(), value.to_string());
    let both = vec![text("input", "a"), text("output", "b")];
    let expected = Some(TestArgs { input: "a".to_string(), output: "b".to_string() });
    assert_eq!(check_args(&both), Ok(expected.clone()));
    assert_eq!(accept_args(&both), expected);
    assert_eq!(accept_args(&vec![]), None);
    assert_eq!(check_args(&vec![text("input", "a")]), Err(HarnessError::Incomplete));
    assert_eq!(
        check_args(&vec![text("input", "a"), Parameter::Other, text("x", "b")]),
        Err(HarnessError::Form { parameter: 1 })
    );
    assert_eq!(
        check_args(&vec![Parameter::Value("output".to_string())]),
        Err(HarnessError::Literal { parameter: 0 })
    );
    assert_eq!(
        check_args(&vec![Parameter::Value("x".to_string())]),
        Err(HarnessError::Unrecognised { parameter: 0 })
    );
}

#[test]
fn solution_may_not_be_called_main() {
    assert_eq!(check_solution("main"), Err(HarnessError::Main));
    assert_eq!(check_solution("solve"), Ok(()));
    assert_eq!(check_solution("main2"), Ok(()));
    assert_eq!(check_solution(""), Ok(()));
}

#[test]
fn case_line_bears_the_number_of_the_case() {
    assert_eq!(case_line(1, "42"), "Case #1: 42");
    assert_eq!(case_line(10, "IMPOSSIBLE"), "Case #10: IMPOSSIBLE");
    assert_eq!(case_line(0, ""), "Case #0: ");
    assert_eq!(case_line(u64::MAX, "x"), "Case #18446744073709551615: x");
}
