//! What a harness around a solution decides: which parameters it accepts,
//! what the solution may be called, and how the result of a case is written.

use crate::error::{agrees, HarnessError};
use crate::number::{canonical, unsigned_text};
use crate::syntax::{admitted, is_admitted, meta_read, meta_shape, read_meta, MetaModel, MetaShape};
use crate::text::same_text;
use vstd::prelude::*;
use vstd::string::StringExecFns;

verus! {

/// Where the input and the expected output of a self-test are found.
#[derive(Debug, Clone, PartialEq, Eq)]
pub struct TestArgs {
    pub input: String,
    pub output: String,
}

/// What a `TestArgs` holds.
pub ghost struct TestArgsModel {
    pub input: Seq<char>,
    pub output: Seq<char>,
}

impl DeepView for TestArgs {
    type V = TestArgsModel;

    open spec fn deep_view(&self) -> TestArgsModel {
        TestArgsModel { input: self.input@, output: self.output@ }
    }
}

/// A parameter of the harness, as written.
#[derive(Debug, Clone, PartialEq, Eq)]
pub enum Parameter {
    /// A name and a string: the name, then what the string holds.
    Text(String, String),
    /// A name and a value that is no string: the name.
    Value(String),
    /// Anything else.
    Other,
}

/// What a `Parameter` holds.
pub ghost enum ParameterModel {
    Text(Seq<char>, Seq<char>),
    Value(Seq<char>),
    Other,
}

impl DeepView for Parameter {
    type V = ParameterModel;

    open spec fn deep_view(&self) -> ParameterModel {
        match self {
            Parameter::Text(key, value) => ParameterModel::Text(key@, value@),
            Parameter::Value(key) => ParameterModel::Value(key@),
            Parameter::Other => ParameterModel::Other,
        }
    }
}

/// What one parameter sets.
pub ghost enum Setting {
    Input(Seq<char>),
    Output(Seq<char>),
}

/// What the parameter in position `index` sets: `input` or `output`, to the
/// content of a string.
pub open spec fn setting(parameter: ParameterModel, index: int) -> Result<Setting, HarnessError> {
    match parameter {
        ParameterModel::Text(key, value) => if key == "input"@ {
            Ok(Setting::Input(value))
        } else if key == "output"@ {
            Ok(Setting::Output(value))
        } else {
            Err(HarnessError::Unrecognised { parameter: index as usize })
        },
        ParameterModel::Value(key) => if key == "input"@ || key == "output"@ {
            Err(HarnessError::Literal { parameter: index as usize })
        } else {
            Err(HarnessError::Unrecognised { parameter: index as usize })
        },
        ParameterModel::Other => Err(HarnessError::Form { parameter: index as usize }),
    }
}

/// The input and the output that the first `n` parameters set, each to the
/// value of the last parameter that sets it, or the fault of the first
/// parameter that has one.
pub open spec fn settings(parameters: Seq<ParameterModel>, n: nat) -> Result<
    (Option<Seq<char>>, Option<Seq<char>>),
    HarnessError,
>
    decreases n,
{
    if n == 0 {
        Ok((None, None))
    } else {
        match settings(parameters, (n - 1) as nat) {
            Err(e) => Err(e),
            Ok((input, output)) => match setting(parameters[n - 1], n - 1) {
                Err(e) => Err(e),
                Ok(Setting::Input(value)) => Ok((Some(value), output)),
                Ok(Setting::Output(value)) => Ok((input, Some(value))),
            },
        }
    }
}

/// The self-test that the parameters ask for: none where they set neither
/// the input nor the output, one where they set both.
pub open spec fn test_args(parameters: Seq<ParameterModel>) -> Result<
    Option<TestArgsModel>,
    HarnessError,
> {
    match settings(parameters, parameters.len()) {
        Err(e) => Err(e),
        Ok((None, None)) => Ok(None),
        Ok((Some(input), Some(output))) => Ok(Some(TestArgsModel { input, output })),
        Ok(_) => Err(HarnessError::Incomplete),
    }
}

/// A fault among the first parameters is the fault of all.
pub proof fn lemma_settings_failure_stays(parameters: Seq<ParameterModel>, n: nat, m: nat)
    requires
        n <= m,
        settings(parameters, n) is Err,
    ensures
        settings(parameters, m) == settings(parameters, n),
    decreases m,
{
    if n < m {
        lemma_settings_failure_stays(parameters, n, (m - 1) as nat);
    }
}

/// The parameter that the content of an attribute holds: a name with a
/// string, or a name with another value.
pub open spec fn parameter_in(m: MetaModel) -> ParameterModel {
    match m {
        MetaModel::Text(Some(key), value) => ParameterModel::Text(key, value),
        MetaModel::Value(Some(key)) => ParameterModel::Value(key),
        _ => ParameterModel::Other,
    }
}

/// The parameter that `text` spells: that which `syn` finds in it, where the
/// text is admitted and `syn` finds the content of an attribute.
pub open spec fn parameter_read(text: Seq<char>) -> ParameterModel {
    if !admitted(text) {
        ParameterModel::Other
    } else {
        match meta_read(text) {
            Some(m) => parameter_in(m),
            None => ParameterModel::Other,
        }
    }
}

/// The parameter that `text` spells. A text that is not admitted is not
/// read.
pub fn read_parameter(text: &str) -> (r: Parameter)
    ensures
        r.deep_view() == parameter_read(text@),
{
    if !is_admitted(text) {
        return Parameter::Other;
    }
    match read_meta(text) {
        None => Parameter::Other,
        Some(meta) => match meta_shape(&meta) {
            MetaShape::Text(Some(key), value) => Parameter::Text(key, value),
            MetaShape::Value(Some(key)) => Parameter::Value(key),
            _ => Parameter::Other,
        },
    }
}

/// The self-test that the parameters ask for, or what is wrong with them.
pub fn check_args(parameters: &Vec<Parameter>) -> (r: Result<Option<TestArgs>, HarnessError>)
    ensures
        agrees(r, test_args(parameters.deep_view())),
{
    let ghost all = parameters.deep_view();
    let mut test_in: Option<String> = None;
    let mut test_out: Option<String> = None;
    let mut i: usize = 0;
    while i < parameters.len()
        invariant
            i <= parameters.len(),
            all == parameters.deep_view(),
            settings(all, i as nat) == Ok::<(Option<Seq<char>>, Option<Seq<char>>), HarnessError>(
                (test_in.deep_view(), test_out.deep_view()),
            ),
        decreases parameters.len() - i,
    {
        assert(all[i as int] == parameters@[i as int].deep_view());
        let fault = match &parameters[i] {
            Parameter::Text(key, value) => {
                if same_text(key.as_str(), "input") {
                    test_in = Some(value.clone());
                    None
                } else if same_text(key.as_str(), "output") {
                    test_out = Some(value.clone());
                    None
                } else {
                    Some(HarnessError::Unrecognised { parameter: i })
                }
            },
            Parameter::Value(key) => {
                if same_text(key.as_str(), "input") || same_text(key.as_str(), "output") {
                    Some(HarnessError::Literal { parameter: i })
                } else {
                    Some(HarnessError::Unrecognised { parameter: i })
                }
            },
            Parameter::Other => Some(HarnessError::Form { parameter: i }),
        };
        match fault {
            Some(e) => {
                proof {
                    lemma_settings_failure_stays(all, (i + 1) as nat, all.len());
                }
                return Err(e);
            },
            None => {},
        }
        i += 1;
    }
    match (test_in, test_out) {
        (None, None) => Ok(None),
        (Some(input), Some(output)) => Ok(Some(TestArgs { input, output })),
        _ => Err(HarnessError::Incomplete),
    }
}

/// The self-test that the parameters ask for, where nothing is wrong with
/// them: each sets the input or the output to a string, and both are set or
/// neither.
pub fn accept_args(parameters: &Vec<Parameter>) -> (r: Option<TestArgs>)
    requires
        test_args(parameters.deep_view()) is Ok,
    ensures
        test_args(parameters.deep_view()) == Ok::<Option<TestArgsModel>, HarnessError>(
            r.deep_view(),
        ),
{
    match check_args(parameters) {
        Ok(args) => args,
        Err(_) => None,
    }
}

/// The parameters that the texts `args` spell, one each.
pub open spec fn parameters_read(args: Seq<Seq<char>>) -> Seq<ParameterModel> {
    Seq::new(args.len(), |i: int| parameter_read(args[i]))
}

/// The self-test that the parameters of a harness ask for, each parameter
/// written as text, or what is wrong with them.
pub fn parse_args(args: &Vec<String>) -> (r: Result<Option<TestArgs>, HarnessError>)
    ensures
        agrees(r, test_args(parameters_read(args.deep_view()))),
{
    let ghost all = parameters_read(args.deep_view());
    let mut parameters: Vec<Parameter> = Vec::new();
    let mut i: usize = 0;
    assert(parameters.deep_view() =~= all.take(0));
    while i < args.len()
        invariant
            i <= args.len(),
            all == parameters_read(args.deep_view()),
            parameters.deep_view() == all.take(i as int),
        decreases args.len() - i,
    {
        let ghost before = parameters.deep_view();
        assert(args.deep_view()[i as int] == args@[i as int]@);
        let parameter = read_parameter(args[i].as_str());
        parameters.push(parameter);
        assert(parameters.deep_view() =~= before.push(parameter.deep_view()));
        assert(parameters.deep_view() =~= all.take(i + 1));
        i += 1;
    }
    assert(all.take(i as int) =~= all);
    check_args(&parameters)
}

/// Checks the name of a solution: any name but `main`.
pub fn check_solution(name: &str) -> (r: Result<(), HarnessError>)
    ensures
        r is Ok <==> name@ != "main"@,
        r is Err ==> r == Err::<(), HarnessError>(HarnessError::Main),
{
    if same_text(name, "main") {
        Err(HarnessError::Main)
    } else {
        Ok(())
    }
}

/// The line that reports the result of a case: `Case #`, the number of the
/// case, a colon, a space, and the result.
pub open spec fn case_text(case: u64, result: Seq<char>) -> Seq<char> {
    "Case #"@ + canonical(case as int) + ": "@ + result
}

/// The line that reports the result of a case.
pub fn case_line(case: u64, result: &str) -> (line: String)
    ensures
        line@ == case_text(case, result@),
{
    let mut line = "Case #".to_owned();
    line.append(unsigned_text(case as u128).as_str());
    line.append(": ");
    line.append(result);
    line
}

} // verus!
