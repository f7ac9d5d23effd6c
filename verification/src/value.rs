//! Values read under a declared type: what a token and a line denote, and
//! the functions that read them.

use crate::error::{agrees, ConversionError, ParseError};
use crate::number::{
    canonical, integer, is_canonical, lemma_canonical_reads_back, lemma_reads_canonical,
    parse_integer, signed_text, unsigned_text,
};
use crate::text::{same_text, split_whitespace, to_chars, tokens, trim, trimmed, views};
use crate::types::{LineType, LineTypeModel, Primitive};
use vstd::prelude::*;

verus! {

/// A value written as a single token. An integer is held in the widest type
/// of its sign, whatever the width it was declared with.
#[derive(Debug, Clone, PartialEq, Eq)]
pub enum Scalar {
    Unsigned(u128),
    Signed(i128),
    Text(String),
    Bool(bool),
    Char(char),
}

/// The value of one line.
#[derive(Debug, Clone, PartialEq, Eq)]
pub enum LineValue {
    /// The whole line as one value.
    Single(Scalar),
    /// One value for each token read: a tuple, an array or a sequence.
    Many(Vec<Scalar>),
}

/// The value of a field.
#[derive(Debug, Clone, PartialEq, Eq)]
pub enum FieldValue {
    /// A value read from one line.
    Line(LineValue),
    /// A sequence of rows, each read from one line.
    Rows(Vec<LineValue>),
}

/// What a `Scalar` holds.
pub ghost enum ScalarModel {
    Unsigned(u128),
    Signed(i128),
    Text(Seq<char>),
    Bool(bool),
    Char(char),
}

/// What a `LineValue` holds.
pub ghost enum LineValueModel {
    Single(ScalarModel),
    Many(Seq<ScalarModel>),
}

/// What a `FieldValue` holds.
pub ghost enum FieldValueModel {
    Line(LineValueModel),
    Rows(Seq<LineValueModel>),
}

impl DeepView for Scalar {
    type V = ScalarModel;

    open spec fn deep_view(&self) -> ScalarModel {
        match self {
            Scalar::Unsigned(v) => ScalarModel::Unsigned(*v),
            Scalar::Signed(v) => ScalarModel::Signed(*v),
            Scalar::Text(text) => ScalarModel::Text(text@),
            Scalar::Bool(b) => ScalarModel::Bool(*b),
            Scalar::Char(c) => ScalarModel::Char(*c),
        }
    }
}

impl DeepView for LineValue {
    type V = LineValueModel;

    open spec fn deep_view(&self) -> LineValueModel {
        match self {
            LineValue::Single(v) => LineValueModel::Single(v.deep_view()),
            LineValue::Many(values) => LineValueModel::Many(values.deep_view()),
        }
    }
}

impl DeepView for FieldValue {
    type V = FieldValueModel;

    open spec fn deep_view(&self) -> FieldValueModel {
        match self {
            FieldValue::Line(v) => FieldValueModel::Line(v.deep_view()),
            FieldValue::Rows(rows) => FieldValueModel::Rows(rows.deep_view()),
        }
    }
}

/// What `token` denotes as a truth value: `true` or `false`.
pub open spec fn bool_value(token: Seq<char>) -> Result<bool, ConversionError> {
    if token == "true"@ {
        Ok(true)
    } else if token == "false"@ {
        Ok(false)
    } else {
        Err(ConversionError::NotBool)
    }
}

/// What `token` denotes as a character: the one character it is made of.
pub open spec fn char_value(token: Seq<char>) -> Result<char, ConversionError> {
    if token.len() == 1 {
        Ok(token[0])
    } else {
        Err(ConversionError::NotChar)
    }
}

/// What `token` denotes as a value of the type `p`: for text the token
/// itself, for a truth value `true` or `false`, for a character the one
/// character, for an integer type the number it spells, where it lies
/// between the bounds of the type.
pub open spec fn scalar_value(p: Primitive, token: Seq<char>) -> Result<
    ScalarModel,
    ConversionError,
> {
    if p == Primitive::Text {
        Ok(ScalarModel::Text(token))
    } else if p == Primitive::Bool {
        match bool_value(token) {
            Ok(b) => Ok(ScalarModel::Bool(b)),
            Err(e) => Err(e),
        }
    } else if p == Primitive::Char {
        match char_value(token) {
            Ok(c) => Ok(ScalarModel::Char(c)),
            Err(e) => Err(e),
        }
    } else {
        match integer(token, p.min(), p.max()) {
            Ok(v) => Ok(
                if p.is_signed() {
                    ScalarModel::Signed(v as i128)
                } else {
                    ScalarModel::Unsigned(v as u128)
                },
            ),
            Err(e) => Err(e),
        }
    }
}

/// What the first `n` tokens of `words` denote, the token in position `i` as
/// a value of the type of slot `i` of `ty`: the values in order, or the
/// failure of the first token that does not convert.
pub open spec fn slots(ty: LineTypeModel, words: Seq<Seq<char>>, n: nat) -> Result<
    Seq<ScalarModel>,
    ParseError,
>
    decreases n,
{
    if n == 0 {
        Ok(Seq::empty())
    } else {
        match slots(ty, words, (n - 1) as nat) {
            Err(e) => Err(e),
            Ok(values) => match scalar_value(ty.slot_type(n - 1), words[n - 1]) {
                Ok(v) => Ok(values.push(v)),
                Err(kind) => Err(ParseError::Conversion { slot: (n - 1) as usize, kind }),
            },
        }
    }
}

/// What `line` denotes as a value of the type `ty`.
///
/// A single value takes the whole line: text as it stands without the white
/// space at its ends, a number as one token. A tuple takes one token for
/// each slot and leaves further tokens aside; with fewer tokens than slots
/// it fails on the first slot that stays empty. An array takes exactly as
/// many tokens as it is long: every token is converted first, and the
/// values are then counted. A sequence takes every token.
pub open spec fn line_value(ty: LineTypeModel, line: Seq<char>) -> Result<LineValueModel, ParseError> {
    let words = tokens(line);
    match ty {
        LineTypeModel::Single(p) => {
            if p == Primitive::Text {
                Ok(LineValueModel::Single(ScalarModel::Text(trimmed(line))))
            } else {
                match scalar_value(p, line) {
                    Ok(v) => Ok(LineValueModel::Single(v)),
                    Err(kind) => Err(ParseError::Conversion { slot: 0, kind }),
                }
            }
        },
        LineTypeModel::Tuple(types) => {
            if words.len() < types.len() {
                Err(ParseError::MissingSlot { slot: words.len() as usize })
            } else {
                many(slots(ty, words, types.len()))
            }
        },
        LineTypeModel::Array(_, size) => match slots(ty, words, words.len()) {
            Err(e) => Err(e),
            Ok(values) => if words.len() != size {
                Err(ParseError::WrongSize { expected: size, found: words.len() as usize })
            } else {
                Ok(LineValueModel::Many(values))
            },
        },
        LineTypeModel::Sequence(_) => many(slots(ty, words, words.len())),
    }
}

/// The values of the slots of a line, as the value of the line.
pub open spec fn many(r: Result<Seq<ScalarModel>, ParseError>) -> Result<LineValueModel, ParseError> {
    match r {
        Ok(values) => Ok(LineValueModel::Many(values)),
        Err(e) => Err(e),
    }
}

/// The line parser of the type `ty`, as a function.
pub open spec fn line_parser(ty: LineTypeModel) -> spec_fn(Seq<char>) -> Result<
    LineValueModel,
    ParseError,
> {
    |line: Seq<char>| line_value(ty, line)
}

/// A failure among the first slots of a line is the failure of the line.
pub proof fn lemma_slots_failure_stays(ty: LineTypeModel, words: Seq<Seq<char>>, n: nat, m: nat)
    requires
        n <= m,
        slots(ty, words, n) is Err,
    ensures
        slots(ty, words, m) == slots(ty, words, n),
    decreases m,
{
    if n < m {
        lemma_slots_failure_stays(ty, words, n, (m - 1) as nat);
    }
}

/// Slots that all convert give one value each.
pub proof fn lemma_slots_len(ty: LineTypeModel, words: Seq<Seq<char>>, n: nat)
    requires
        slots(ty, words, n) is Ok,
    ensures
        slots(ty, words, n)->Ok_0.len() == n,
    decreases n,
{
    if n > 0 {
        lemma_slots_len(ty, words, (n - 1) as nat);
    }
}

/// What the first slots of a line denote does not depend on the tokens after
/// them.
pub proof fn lemma_slots_ignore_the_rest(
    ty: LineTypeModel,
    words: Seq<Seq<char>>,
    others: Seq<Seq<char>>,
    n: nat,
)
    requires
        n <= words.len(),
        n <= others.len(),
        words.take(n as int) == others.take(n as int),
    ensures
        slots(ty, words, n) == slots(ty, others, n),
    decreases n,
{
    if n > 0 {
        assert(words.take(n - 1) =~= words.take(n as int).take(n - 1));
        assert(others.take(n - 1) =~= others.take(n as int).take(n - 1));
        lemma_slots_ignore_the_rest(ty, words, others, (n - 1) as nat);
        assert(words[n - 1] == words.take(n as int)[n - 1]);
        assert(others[n - 1] == others.take(n as int)[n - 1]);
    }
}

/// Slots fail by conversion only, never for the number of tokens.
pub proof fn lemma_slots_fail_by_conversion(ty: LineTypeModel, words: Seq<Seq<char>>, n: nat)
    requires
        slots(ty, words, n) is Err,
    ensures
        slots(ty, words, n)->Err_0.is_conversion_within(n as int),
    decreases n,
{
    if n > 0 && slots(ty, words, (n - 1) as nat) is Err {
        lemma_slots_fail_by_conversion(ty, words, (n - 1) as nat);
    }
}

/// A line read as a tuple of `k` slots fails for the number of its tokens
/// exactly when it has fewer than `k`, and then on the first slot that stays
/// empty. A line with `k` tokens or more fails, if at all, on a token that
/// does not convert.
pub proof fn lemma_tuple_arity(types: Seq<Primitive>, line: Seq<char>)
    ensures
        tokens(line).len() < types.len() ==> line_value(LineTypeModel::Tuple(types), line) == Err::<
            LineValueModel,
            ParseError,
        >(ParseError::MissingSlot { slot: tokens(line).len() as usize }),
        tokens(line).len() >= types.len() ==> match line_value(LineTypeModel::Tuple(types), line) {
            Ok(LineValueModel::Many(values)) => values.len() == types.len(),
            Ok(LineValueModel::Single(_)) => false,
            Err(e) => e.is_conversion_within(types.len() as int),
        },
{
    let ty = LineTypeModel::Tuple(types);
    let words = tokens(line);
    if words.len() >= types.len() {
        if slots(ty, words, types.len()) is Err {
            lemma_slots_fail_by_conversion(ty, words, types.len());
        } else {
            lemma_slots_len(ty, words, types.len());
        }
    }
}

/// A line read as a tuple of `k` slots is read from its first `k` tokens
/// alone: two lines that agree on them are read alike.
pub proof fn lemma_tuple_ignores_trailing_tokens(
    types: Seq<Primitive>,
    line: Seq<char>,
    other: Seq<char>,
)
    requires
        tokens(line).len() >= types.len(),
        tokens(other).len() >= types.len(),
        tokens(line).take(types.len() as int) == tokens(other).take(types.len() as int),
    ensures
        line_value(LineTypeModel::Tuple(types), line) == line_value(
            LineTypeModel::Tuple(types),
            other,
        ),
{
    lemma_slots_ignore_the_rest(
        LineTypeModel::Tuple(types),
        tokens(line),
        tokens(other),
        types.len(),
    );
}

/// A line read as an array fails whenever the number of its tokens is not
/// the length of the array: for the number, where every token converts,
/// else on the first token that does not. A line with the right number of
/// tokens fails, if at all, on a token that does not convert.
pub proof fn lemma_array_arity(p: Primitive, size: usize, line: Seq<char>)
    ensures
        tokens(line).len() != size ==> line_value(LineTypeModel::Array(p, size), line) is Err,
        line_value(LineTypeModel::Array(p, size), line) == Err::<LineValueModel, ParseError>(
            ParseError::WrongSize { expected: size, found: tokens(line).len() as usize },
        ) <==> tokens(line).len() != size && slots(
            LineTypeModel::Array(p, size),
            tokens(line),
            tokens(line).len(),
        ) is Ok,
        tokens(line).len() == size ==> match line_value(LineTypeModel::Array(p, size), line) {
            Ok(LineValueModel::Many(values)) => values.len() == size,
            Ok(LineValueModel::Single(_)) => false,
            Err(e) => e.is_conversion_within(size as int),
        },
{
    let ty = LineTypeModel::Array(p, size);
    let words = tokens(line);
    if slots(ty, words, words.len()) is Err {
        lemma_slots_fail_by_conversion(ty, words, words.len());
    } else {
        lemma_slots_len(ty, words, words.len());
    }
}

/// A line read as a sequence never fails for the number of its tokens, and
/// holds one value for each token.
pub proof fn lemma_sequence_arity(p: Primitive, line: Seq<char>)
    ensures
        match line_value(LineTypeModel::Sequence(p), line) {
            Ok(LineValueModel::Many(values)) => values.len() == tokens(line).len(),
            Ok(LineValueModel::Single(_)) => false,
            Err(e) => e.is_conversion_within(tokens(line).len() as int),
        },
{
    let ty = LineTypeModel::Sequence(p);
    let words = tokens(line);
    if slots(ty, words, words.len()) is Err {
        lemma_slots_fail_by_conversion(ty, words, words.len());
    } else {
        lemma_slots_len(ty, words, words.len());
    }
}

/// The canonical text of a value: for a number its digits, after a `-` where
/// it is negative; for text the text itself; for a truth value `true` or
/// `false`; for a character the character.
pub open spec fn scalar_text(v: ScalarModel) -> Seq<char> {
    match v {
        ScalarModel::Unsigned(n) => canonical(n as int),
        ScalarModel::Signed(n) => canonical(n as int),
        ScalarModel::Text(text) => text,
        ScalarModel::Bool(b) => if b {
            "true"@
        } else {
            "false"@
        },
        ScalarModel::Char(c) => seq![c],
    }
}

/// Whether `v` is a value of the type `p`.
pub open spec fn is_value_of(p: Primitive, v: ScalarModel) -> bool {
    match v {
        ScalarModel::Unsigned(n) => p.is_integer() && !p.is_signed() && n <= p.max(),
        ScalarModel::Signed(n) => p.is_signed() && p.min() <= n <= p.max(),
        ScalarModel::Text(_) => p == Primitive::Text,
        ScalarModel::Bool(_) => p == Primitive::Bool,
        ScalarModel::Char(_) => p == Primitive::Char,
    }
}

/// Whether `line` is the canonical way to write a value of the type `p` on a
/// line of its own: a number in canonical form, text without white space at
/// its ends, `true` or `false`, or one character.
pub open spec fn is_canonical_line(p: Primitive, line: Seq<char>) -> bool {
    if p == Primitive::Text {
        trimmed(line) == line
    } else if p == Primitive::Bool {
        line == "true"@ || line == "false"@
    } else if p == Primitive::Char {
        line.len() == 1
    } else {
        is_canonical(line)
    }
}

/// The canonical text of a value of a primitive type, on a line of its own,
/// is read back as that value.
pub proof fn lemma_primitive_reads_back(p: Primitive, v: ScalarModel)
    requires
        is_value_of(p, v),
        v matches ScalarModel::Text(text) ==> trimmed(text) == text,
    ensures
        is_canonical_line(p, scalar_text(v)),
        line_value(LineTypeModel::Single(p), scalar_text(v)) == Ok::<LineValueModel, ParseError>(
            LineValueModel::Single(v),
        ),
{
    match v {
        ScalarModel::Unsigned(n) => {
            lemma_canonical_reads_back(n as int, p.min(), p.max());
        },
        ScalarModel::Signed(n) => {
            lemma_canonical_reads_back(n as int, p.min(), p.max());
        },
        ScalarModel::Text(_) => {},
        ScalarModel::Bool(_) => {
            reveal_strlit("true");
            reveal_strlit("false");
        },
        ScalarModel::Char(c) => {
            assert(seq![c][0] == c);
        },
    }
}

/// A canonical line that is read as a value of a primitive type is the
/// canonical text of that value: writing the value out gives the line back.
pub proof fn lemma_primitive_round_trip(p: Primitive, line: Seq<char>)
    requires
        is_canonical_line(p, line),
        line_value(LineTypeModel::Single(p), line) is Ok,
    ensures
        line_value(LineTypeModel::Single(p), line)->Ok_0 matches LineValueModel::Single(v)
            && is_value_of(p, v) && scalar_text(v) == line,
{
    if p == Primitive::Char {
        assert(seq![line[0]] =~= line);
    } else if p.is_integer() {
        lemma_reads_canonical(line, p.min(), p.max());
    }
}

/// `String::from` for a character: the text that holds `c` alone.
#[verifier::external_body]
fn char_text(c: char) -> (text: String)
    ensures
        text@ == seq![c],
{
    String::from(c)
}

/// Converts `token` to a truth value.
pub fn parse_bool(token: &str) -> (r: Result<bool, ConversionError>)
    ensures
        r == bool_value(token@),
{
    if same_text(token, "true") {
        Ok(true)
    } else if same_text(token, "false") {
        Ok(false)
    } else {
        Err(ConversionError::NotBool)
    }
}

/// Converts `token` to a character.
pub fn parse_char(token: &str) -> (r: Result<char, ConversionError>)
    ensures
        r == char_value(token@),
{
    let chars = to_chars(token);
    if chars.len() == 1 {
        Ok(chars[0])
    } else {
        Err(ConversionError::NotChar)
    }
}

impl Scalar {
    /// The canonical text of this value.
    pub fn to_text(&self) -> (text: String)
        ensures
            text@ == scalar_text(self.deep_view()),
    {
        match self {
            Scalar::Unsigned(n) => unsigned_text(*n),
            Scalar::Signed(n) => signed_text(*n),
            Scalar::Text(text) => text.clone(),
            Scalar::Bool(b) => if *b {
                "true".to_owned()
            } else {
                "false".to_owned()
            },
            Scalar::Char(c) => char_text(*c),
        }
    }

    /// A copy of this value.
    pub fn copy(&self) -> (other: Scalar)
        ensures
            other.deep_view() == self.deep_view(),
    {
        match self {
            Scalar::Unsigned(v) => Scalar::Unsigned(*v),
            Scalar::Signed(v) => Scalar::Signed(*v),
            Scalar::Text(text) => Scalar::Text(text.clone()),
            Scalar::Bool(b) => Scalar::Bool(*b),
            Scalar::Char(c) => Scalar::Char(*c),
        }
    }
}

/// Converts `token` to a value of the type `p`.
pub fn parse_scalar(p: Primitive, token: &str) -> (r: Result<Scalar, ConversionError>)
    ensures
        agrees(r, scalar_value(p, token@)),
{
    match p {
        Primitive::Text => Ok(Scalar::Text(token.to_owned())),
        Primitive::Bool => match parse_bool(token) {
            Ok(b) => Ok(Scalar::Bool(b)),
            Err(e) => Err(e),
        },
        Primitive::Char => match parse_char(token) {
            Ok(c) => Ok(Scalar::Char(c)),
            Err(e) => Err(e),
        },
        _ => {
            let (min, max) = p.bounds();
            match parse_integer(token, min, max) {
                Err(e) => Err(e),
                Ok((negative, magnitude)) => {
                    if !p.signed() {
                        Ok(Scalar::Unsigned(magnitude))
                    } else if !negative {
                        Ok(Scalar::Signed(magnitude as i128))
                    } else if magnitude == 0x8000_0000_0000_0000_0000_0000_0000_0000u128 {
                        Ok(Scalar::Signed(i128::MIN))
                    } else {
                        Ok(Scalar::Signed(-(magnitude as i128)))
                    }
                },
            }
        },
    }
}

/// Converts the first `n` tokens of `words`, each to the type of its slot,
/// stopping at the first that fails.
pub(crate) fn parse_slots(ty: &LineType, words: &Vec<&str>, n: usize) -> (r: Result<
    Vec<Scalar>,
    ParseError,
>)
    requires
        n <= words.len(),
        ty.deep_view() matches LineTypeModel::Tuple(types) ==> n <= types.len(),
    ensures
        agrees(r, slots(ty.deep_view(), views(words@), n as nat)),
{
    let mut out: Vec<Scalar> = Vec::new();
    let mut i: usize = 0;
    assert(out.deep_view() =~= Seq::<ScalarModel>::empty());
    while i < n
        invariant
            i <= n <= words.len(),
            ty.deep_view() matches LineTypeModel::Tuple(types) ==> n <= types.len(),
            slots(ty.deep_view(), views(words@), i as nat) == Ok::<Seq<ScalarModel>, ParseError>(
                out.deep_view(),
            ),
        decreases n - i,
    {
        match parse_scalar(ty.slot_type(i), words[i]) {
            Ok(v) => {
                let ghost before = out.deep_view();
                out.push(v);
                assert(out.deep_view() =~= before.push(v.deep_view()));
            },
            Err(kind) => {
                proof {
                    lemma_slots_failure_stays(
                        ty.deep_view(),
                        views(words@),
                        (i + 1) as nat,
                        n as nat,
                    );
                }
                return Err(ParseError::Conversion { slot: i, kind });
            },
        }
        i += 1;
    }
    Ok(out)
}

/// Reads `line`, a line without its line feed, as a value of the type `ty`.
pub fn parse_line_value(ty: &LineType, line: &str) -> (r: Result<LineValue, ParseError>)
    ensures
        agrees(r, line_value(ty.deep_view(), line@)),
{
    match ty {
        LineType::Single(p) => {
            match p {
                Primitive::Text => Ok(LineValue::Single(Scalar::Text(trim(line).to_owned()))),
                _ => match parse_scalar(*p, line) {
                    Ok(v) => Ok(LineValue::Single(v)),
                    Err(kind) => Err(ParseError::Conversion { slot: 0, kind }),
                },
            }
        },
        LineType::Tuple(types) => {
            let words = split_whitespace(line);
            if words.len() < types.len() {
                return Err(ParseError::MissingSlot { slot: words.len() });
            }
            match parse_slots(ty, &words, types.len()) {
                Ok(values) => Ok(LineValue::Many(values)),
                Err(e) => Err(e),
            }
        },
        LineType::Array(_, size) => {
            let words = split_whitespace(line);
            match parse_slots(ty, &words, words.len()) {
                Ok(values) => {
                    if words.len() != *size {
                        Err(ParseError::WrongSize { expected: *size, found: words.len() })
                    } else {
                        Ok(LineValue::Many(values))
                    }
                },
                Err(e) => Err(e),
            }
        },
        LineType::Sequence(_) => {
            let words = split_whitespace(line);
            match parse_slots(ty, &words, words.len()) {
                Ok(values) => Ok(LineValue::Many(values)),
                Err(e) => Err(e),
            }
        },
    }
}

} // verus!
