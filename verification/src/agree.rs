//! The two ways of reading a line agree: by a type of the language, and by
//! a declared type. Whatever a line is read as under a type `T`, it is read
//! as under the declared type that stands for `T`, value for value and
//! failure for failure.

use crate::error::{ConversionError, ParseError};
use crate::testcase::{elements, slot_value, whole_line, FromToken, InlineTestCase};
use crate::text::tokens;
use crate::types::{LineTypeModel, Primitive};
use crate::value::{line_value, scalar_value, slots, LineValueModel, ScalarModel};
use vstd::prelude::*;

verus! {

/// A value or a failure to convert, with the value taken to a scalar.
pub open spec fn embedded<V>(
    r: Result<V, ConversionError>,
    embed: spec_fn(V) -> ScalarModel,
) -> Result<ScalarModel, ConversionError> {
    match r {
        Ok(v) => Ok(embed(v)),
        Err(e) => Err(e),
    }
}

/// Whether the type `T` reads every token as the declared type `p` does,
/// where `embed` takes a value of `T` to the scalar that stands for it.
#[verifier::opaque]
pub open spec fn reads_as<T: FromToken>(p: Primitive, embed: spec_fn(T::V) -> ScalarModel) -> bool {
    forall|token: Seq<char>| #[trigger]
        scalar_value(p, token) == embedded(T::token_value(token), embed)
}

/// The values of a line, each taken to a scalar, as the value of the line.
pub open spec fn lifted<V>(
    r: Result<Seq<V>, ParseError>,
    embed: spec_fn(V) -> ScalarModel,
) -> Result<LineValueModel, ParseError> {
    match r {
        Ok(values) => Ok(LineValueModel::Many(Seq::new(values.len(), |i: int| embed(values[i])))),
        Err(e) => Err(e),
    }
}

/// The first tokens of a line convert alike under `T` and under a declared
/// type whose slots are all `p`.
pub proof fn lemma_elements_agree<T: FromToken>(
    p: Primitive,
    embed: spec_fn(T::V) -> ScalarModel,
    ty: LineTypeModel,
    words: Seq<Seq<char>>,
    n: nat,
)
    requires
        reads_as::<T>(p, embed),
        n <= words.len(),
        forall|i: int| 0 <= i < n ==> ty.slot_type(i) == p,
    ensures
        match elements::<T>(words.take(n as int)) {
            Ok(values) => slots(ty, words, n) == Ok::<Seq<ScalarModel>, ParseError>(
                Seq::new(values.len(), |i: int| embed(values[i])),
            ),
            Err(e) => slots(ty, words, n) == Err::<Seq<ScalarModel>, ParseError>(e),
        },
    decreases n,
{
    reveal(reads_as);
    let head = words.take(n as int);
    if n == 0 {
        assert(Seq::new(0, |i: int| embed(elements::<T>(head)->Ok_0[i])) =~= Seq::<
            ScalarModel,
        >::empty());
    } else {
        lemma_elements_agree::<T>(p, embed, ty, words, (n - 1) as nat);
        assert(head.drop_last() =~= words.take(n - 1));
        assert(head[n - 1] == words[n - 1]);
        assert(scalar_value(p, words[n - 1]) == embedded(T::token_value(words[n - 1]), embed));
        match elements::<T>(head.drop_last()) {
            Ok(before) => match T::token_value(words[n - 1]) {
                Ok(v) => {
                    assert(Seq::new(before.push(v).len(), |i: int| embed(before.push(v)[i]))
                        =~= Seq::new(before.len(), |i: int| embed(before[i])).push(embed(v)));
                },
                Err(_) => {},
            },
            Err(_) => {},
        }
    }
}

/// A line is read as a sequence of `T` as it is read under the declared
/// sequence of `p`.
pub proof fn lemma_sequence_agrees<T: FromToken>(
    p: Primitive,
    embed: spec_fn(T::V) -> ScalarModel,
    line: Seq<char>,
)
    requires
        reads_as::<T>(p, embed),
    ensures
        line_value(LineTypeModel::Sequence(p), line) == lifted(Vec::<T>::line_value(line), embed),
{
    let words = tokens(line);
    lemma_elements_agree::<T>(p, embed, LineTypeModel::Sequence(p), words, words.len());
    assert(words.take(words.len() as int) =~= words);
}

/// A line is read as an array of `T` as it is read under the declared array
/// of `p` of the same length.
pub proof fn lemma_array_agrees<T: FromToken, const N: usize>(
    p: Primitive,
    embed: spec_fn(T::V) -> ScalarModel,
    line: Seq<char>,
)
    requires
        reads_as::<T>(p, embed),
    ensures
        line_value(LineTypeModel::Array(p, N), line) == lifted(<[T; N]>::line_value(line), embed),
{
    let words = tokens(line);
    lemma_elements_agree::<T>(p, embed, LineTypeModel::Array(p, N), words, words.len());
    assert(words.take(words.len() as int) =~= words);
}

/// A line is read as a single `T`, taken as one token, as it is read under
/// the declared type `p`, where `p` is not text.
pub proof fn lemma_single_agrees<T: FromToken>(
    p: Primitive,
    embed: spec_fn(T::V) -> ScalarModel,
    line: Seq<char>,
)
    requires
        reads_as::<T>(p, embed),
        p != Primitive::Text,
    ensures
        line_value(LineTypeModel::Single(p), line) == match whole_line::<T>(line) {
            Ok(v) => Ok::<LineValueModel, ParseError>(LineValueModel::Single(embed(v))),
            Err(e) => Err(e),
        },
{
    reveal(reads_as);
    assert(scalar_value(p, line) == embedded(T::token_value(line), embed));
}

/// One more slot of a line converts under `T` as it does under a declared
/// type whose slot in that position is `p`.
pub proof fn lemma_slot_agrees<T: FromToken>(
    p: Primitive,
    embed: spec_fn(T::V) -> ScalarModel,
    ty: LineTypeModel,
    words: Seq<Seq<char>>,
    i: nat,
)
    requires
        reads_as::<T>(p, embed),
        ty.slot_type(i as int) == p,
    ensures
        slots(ty, words, i) is Err ==> slots(ty, words, i + 1) == slots(ty, words, i),
        slots(ty, words, i) is Ok && slot_value::<T>(words, i as int) is Err ==> slots(
            ty,
            words,
            i + 1,
        ) == Err::<Seq<ScalarModel>, ParseError>(slot_value::<T>(words, i as int)->Err_0),
        slots(ty, words, i) is Ok && slot_value::<T>(words, i as int) is Ok ==> slots(
            ty,
            words,
            i + 1,
        ) == Ok::<Seq<ScalarModel>, ParseError>(
            slots(ty, words, i)->Ok_0.push(embed(slot_value::<T>(words, i as int)->Ok_0)),
        ),
{
    reveal(reads_as);
    assert(scalar_value(p, words[i as int]) == embedded(T::token_value(words[i as int]), embed));
}

/// A line is read as text as it is read under the declared type of text.
pub proof fn lemma_text_agrees(line: Seq<char>)
    ensures
        line_value(LineTypeModel::Single(Primitive::Text), line) == match String::line_value(line) {
            Ok(text) => Ok::<LineValueModel, ParseError>(
                LineValueModel::Single(ScalarModel::Text(text)),
            ),
            Err(e) => Err(e),
        },
{
}

/// The scalar that stands for a `u8`.
pub open spec fn scalar_of_u8() -> spec_fn(u8) -> ScalarModel {
    |v: u8| ScalarModel::Unsigned(v as u128)
}

/// `u8` reads every token as the declared type of its name does.
pub proof fn lemma_u8_reads_as()
    ensures
        reads_as::<u8>(Primitive::U8, scalar_of_u8()),
{
    reveal(reads_as);
}

/// The scalar that stands for a `u16`.
pub open spec fn scalar_of_u16() -> spec_fn(u16) -> ScalarModel {
    |v: u16| ScalarModel::Unsigned(v as u128)
}

/// `u16` reads every token as the declared type of its name does.
pub proof fn lemma_u16_reads_as()
    ensures
        reads_as::<u16>(Primitive::U16, scalar_of_u16()),
{
    reveal(reads_as);
}

/// The scalar that stands for a `u32`.
pub open spec fn scalar_of_u32() -> spec_fn(u32) -> ScalarModel {
    |v: u32| ScalarModel::Unsigned(v as u128)
}

/// `u32` reads every token as the declared type of its name does.
pub proof fn lemma_u32_reads_as()
    ensures
        reads_as::<u32>(Primitive::U32, scalar_of_u32()),
{
    reveal(reads_as);
}

/// The scalar that stands for a `u64`.
pub open spec fn scalar_of_u64() -> spec_fn(u64) -> ScalarModel {
    |v: u64| ScalarModel::Unsigned(v as u128)
}

/// `u64` reads every token as the declared type of its name does.
pub proof fn lemma_u64_reads_as()
    ensures
        reads_as::<u64>(Primitive::U64, scalar_of_u64()),
{
    reveal(reads_as);
}

/// The scalar that stands for a `u128`.
pub open spec fn scalar_of_u128() -> spec_fn(u128) -> ScalarModel {
    |v: u128| ScalarModel::Unsigned(v as u128)
}

/// `u128` reads every token as the declared type of its name does.
pub proof fn lemma_u128_reads_as()
    ensures
        reads_as::<u128>(Primitive::U128, scalar_of_u128()),
{
    reveal(reads_as);
}

/// The scalar that stands for a `usize`.
pub open spec fn scalar_of_usize() -> spec_fn(usize) -> ScalarModel {
    |v: usize| ScalarModel::Unsigned(v as u128)
}

/// `usize` reads every token as the declared type of its name does.
pub proof fn lemma_usize_reads_as()
    ensures
        reads_as::<usize>(Primitive::Usize, scalar_of_usize()),
{
    reveal(reads_as);
}

/// The scalar that stands for a `i8`.
pub open spec fn scalar_of_i8() -> spec_fn(i8) -> ScalarModel {
    |v: i8| ScalarModel::Signed(v as i128)
}

/// `i8` reads every token as the declared type of its name does.
pub proof fn lemma_i8_reads_as()
    ensures
        reads_as::<i8>(Primitive::I8, scalar_of_i8()),
{
    reveal(reads_as);
}

/// The scalar that stands for a `i16`.
pub open spec fn scalar_of_i16() -> spec_fn(i16) -> ScalarModel {
    |v: i16| ScalarModel::Signed(v as i128)
}

/// `i16` reads every token as the declared type of its name does.
pub proof fn lemma_i16_reads_as()
    ensures
        reads_as::<i16>(Primitive::I16, scalar_of_i16()),
{
    reveal(reads_as);
}

/// The scalar that stands for a `i32`.
pub open spec fn scalar_of_i32() -> spec_fn(i32) -> ScalarModel {
    |v: i32| ScalarModel::Signed(v as i128)
}

/// `i32` reads every token as the declared type of its name does.
pub proof fn lemma_i32_reads_as()
    ensures
        reads_as::<i32>(Primitive::I32, scalar_of_i32()),
{
    reveal(reads_as);
}

/// The scalar that stands for a `i64`.
pub open spec fn scalar_of_i64() -> spec_fn(i64) -> ScalarModel {
    |v: i64| ScalarModel::Signed(v as i128)
}

/// `i64` reads every token as the declared type of its name does.
pub proof fn lemma_i64_reads_as()
    ensures
        reads_as::<i64>(Primitive::I64, scalar_of_i64()),
{
    reveal(reads_as);
}

/// The scalar that stands for a `i128`.
pub open spec fn scalar_of_i128() -> spec_fn(i128) -> ScalarModel {
    |v: i128| ScalarModel::Signed(v as i128)
}

/// `i128` reads every token as the declared type of its name does.
pub proof fn lemma_i128_reads_as()
    ensures
        reads_as::<i128>(Primitive::I128, scalar_of_i128()),
{
    reveal(reads_as);
}

/// The scalar that stands for a `isize`.
pub open spec fn scalar_of_isize() -> spec_fn(isize) -> ScalarModel {
    |v: isize| ScalarModel::Signed(v as i128)
}

/// `isize` reads every token as the declared type of its name does.
pub proof fn lemma_isize_reads_as()
    ensures
        reads_as::<isize>(Primitive::Isize, scalar_of_isize()),
{
    reveal(reads_as);
}

/// The scalar that stands for a text.
pub open spec fn scalar_of_text() -> spec_fn(Seq<char>) -> ScalarModel {
    |v: Seq<char>| ScalarModel::Text(v)
}

/// `String` reads every token as the declared type of text does.
pub proof fn lemma_text_reads_as()
    ensures
        reads_as::<String>(Primitive::Text, scalar_of_text()),
{
    reveal(reads_as);
}

/// The scalar that stands for a truth value.
pub open spec fn scalar_of_bool() -> spec_fn(bool) -> ScalarModel {
    |v: bool| ScalarModel::Bool(v)
}

/// `bool` reads every token as the declared type of its name does.
pub proof fn lemma_bool_reads_as()
    ensures
        reads_as::<bool>(Primitive::Bool, scalar_of_bool()),
{
    reveal(reads_as);
    reveal_strlit("true");
    reveal_strlit("false");
}

/// The scalar that stands for a character.
pub open spec fn scalar_of_char() -> spec_fn(char) -> ScalarModel {
    |v: char| ScalarModel::Char(v)
}

/// `char` reads every token as the declared type of its name does.
pub proof fn lemma_char_reads_as()
    ensures
        reads_as::<char>(Primitive::Char, scalar_of_char()),
{
    reveal(reads_as);
}

/// A line is read as a tuple of one as it is read under the declared
/// tuple of the same slots.
pub proof fn lemma_tuple_of_one_agrees<T0: FromToken>(
    d0: Primitive,
    e0: spec_fn(T0::V) -> ScalarModel,
    line: Seq<char>,
)
    requires
        reads_as::<T0>(d0, e0),
    ensures
        line_value(LineTypeModel::Tuple(seq![d0]), line) == match <(T0,)>::line_value(line) {
            Ok((v0,)) => Ok::<LineValueModel, ParseError>(LineValueModel::Many(seq![e0(v0)])),
            Err(e) => Err(e),
        },
{
    let types = seq![d0];
    let ty = LineTypeModel::Tuple(types);
    let words = tokens(line);
    assert(types.len() == 1);
    if words.len() >= 1 {
        assert(slots(ty, words, 0) == Ok::<Seq<ScalarModel>, ParseError>(Seq::empty()));
        lemma_slot_agrees::<T0>(d0, e0, ty, words, 0);
        if slot_value::<T0>(words, 0) is Ok {
            assert(slots(ty, words, 1)->Ok_0 =~= seq![e0(slot_value::<T0>(words, 0)->Ok_0)]);
        }
    }
}

/// A line is read as a tuple of two as it is read under the declared
/// tuple of the same slots.
pub proof fn lemma_tuple_of_two_agrees<T0: FromToken, T1: FromToken>(
    d0: Primitive,
    e0: spec_fn(T0::V) -> ScalarModel,
    d1: Primitive,
    e1: spec_fn(T1::V) -> ScalarModel,
    line: Seq<char>,
)
    requires
        reads_as::<T0>(d0, e0),
        reads_as::<T1>(d1, e1),
    ensures
        line_value(LineTypeModel::Tuple(seq![d0, d1]), line) == match <(T0, T1)>::line_value(line) {
            Ok((v0, v1)) => Ok::<LineValueModel, ParseError>(LineValueModel::Many(seq![e0(v0), e1(v1)])),
            Err(e) => Err(e),
        },
{
    let types = seq![d0, d1];
    let ty = LineTypeModel::Tuple(types);
    let words = tokens(line);
    assert(types.len() == 2);
    if words.len() >= 2 {
        assert(slots(ty, words, 0) == Ok::<Seq<ScalarModel>, ParseError>(Seq::empty()));
        lemma_slot_agrees::<T0>(d0, e0, ty, words, 0);
        lemma_slot_agrees::<T1>(d1, e1, ty, words, 1);
        if slot_value::<T0>(words, 0) is Ok && slot_value::<T1>(words, 1) is Ok {
            assert(slots(ty, words, 2)->Ok_0 =~= seq![e0(slot_value::<T0>(words, 0)->Ok_0), e1(slot_value::<T1>(words, 1)->Ok_0)]);
        }
    }
}

/// A line is read as a tuple of three as it is read under the declared
/// tuple of the same slots.
pub proof fn lemma_tuple_of_three_agrees<T0: FromToken, T1: FromToken, T2: FromToken>(
    d0: Primitive,
    e0: spec_fn(T0::V) -> ScalarModel,
    d1: Primitive,
    e1: spec_fn(T1::V) -> ScalarModel,
    d2: Primitive,
    e2: spec_fn(T2::V) -> ScalarModel,
    line: Seq<char>,
)
    requires
        reads_as::<T0>(d0, e0),
        reads_as::<T1>(d1, e1),
        reads_as::<T2>(d2, e2),
    ensures
        line_value(LineTypeModel::Tuple(seq![d0, d1, d2]), line) == match <(T0, T1, T2)>::line_value(line) {
            Ok((v0, v1, v2)) => Ok::<LineValueModel, ParseError>(LineValueModel::Many(seq![e0(v0), e1(v1), e2(v2)])),
            Err(e) => Err(e),
        },
{
    let types = seq![d0, d1, d2];
    let ty = LineTypeModel::Tuple(types);
    let words = tokens(line);
    assert(types.len() == 3);
    if words.len() >= 3 {
        assert(slots(ty, words, 0) == Ok::<Seq<ScalarModel>, ParseError>(Seq::empty()));
        lemma_slot_agrees::<T0>(d0, e0, ty, words, 0);
        lemma_slot_agrees::<T1>(d1, e1, ty, words, 1);
        lemma_slot_agrees::<T2>(d2, e2, ty, words, 2);
        if slot_value::<T0>(words, 0) is Ok && slot_value::<T1>(words, 1) is Ok && slot_value::<T2>(words, 2) is Ok {
            assert(slots(ty, words, 3)->Ok_0 =~= seq![e0(slot_value::<T0>(words, 0)->Ok_0), e1(slot_value::<T1>(words, 1)->Ok_0), e2(slot_value::<T2>(words, 2)->Ok_0)]);
        }
    }
}

/// A line is read as a tuple of four as it is read under the declared
/// tuple of the same slots.
pub proof fn lemma_tuple_of_four_agrees<T0: FromToken, T1: FromToken, T2: FromToken, T3: FromToken>(
    d0: Primitive,
    e0: spec_fn(T0::V) -> ScalarModel,
    d1: Primitive,
    e1: spec_fn(T1::V) -> ScalarModel,
    d2: Primitive,
    e2: spec_fn(T2::V) -> ScalarModel,
    d3: Primitive,
    e3: spec_fn(T3::V) -> ScalarModel,
    line: Seq<char>,
)
    requires
        reads_as::<T0>(d0, e0),
        reads_as::<T1>(d1, e1),
        reads_as::<T2>(d2, e2),
        reads_as::<T3>(d3, e3),
    ensures
        line_value(LineTypeModel::Tuple(seq![d0, d1, d2, d3]), line) == match <(T0, T1, T2, T3)>::line_value(line) {
            Ok((v0, v1, v2, v3)) => Ok::<LineValueModel, ParseError>(LineValueModel::Many(seq![e0(v0), e1(v1), e2(v2), e3(v3)])),
            Err(e) => Err(e),
        },
{
    let types = seq![d0, d1, d2, d3];
    let ty = LineTypeModel::Tuple(types);
    let words = tokens(line);
    assert(types.len() == 4);
    if words.len() >= 4 {
        assert(slots(ty, words, 0) == Ok::<Seq<ScalarModel>, ParseError>(Seq::empty()));
        lemma_slot_agrees::<T0>(d0, e0, ty, words, 0);
        lemma_slot_agrees::<T1>(d1, e1, ty, words, 1);
        lemma_slot_agrees::<T2>(d2, e2, ty, words, 2);
        lemma_slot_agrees::<T3>(d3, e3, ty, words, 3);
        if slot_value::<T0>(words, 0) is Ok && slot_value::<T1>(words, 1) is Ok && slot_value::<T2>(words, 2) is Ok && slot_value::<T3>(words, 3) is Ok {
            assert(slots(ty, words, 4)->Ok_0 =~= seq![e0(slot_value::<T0>(words, 0)->Ok_0), e1(slot_value::<T1>(words, 1)->Ok_0), e2(slot_value::<T2>(words, 2)->Ok_0), e3(slot_value::<T3>(words, 3)->Ok_0)]);
        }
    }
}

/// A line is read as a tuple of five as it is read under the declared
/// tuple of the same slots.
pub proof fn lemma_tuple_of_five_agrees<T0: FromToken, T1: FromToken, T2: FromToken, T3: FromToken, T4: FromToken>(
    d0: Primitive,
    e0: spec_fn(T0::V) -> ScalarModel,
    d1: Primitive,
    e1: spec_fn(T1::V) -> ScalarModel,
    d2: Primitive,
    e2: spec_fn(T2::V) -> ScalarModel,
    d3: Primitive,
    e3: spec_fn(T3::V) -> ScalarModel,
    d4: Primitive,
    e4: spec_fn(T4::V) -> ScalarModel,
    line: Seq<char>,
)
    requires
        reads_as::<T0>(d0, e0),
        reads_as::<T1>(d1, e1),
        reads_as::<T2>(d2, e2),
        reads_as::<T3>(d3, e3),
        reads_as::<T4>(d4, e4),
    ensures
        line_value(LineTypeModel::Tuple(seq![d0, d1, d2, d3, d4]), line) == match <(T0, T1, T2, T3, T4)>::line_value(line) {
            Ok((v0, v1, v2, v3, v4)) => Ok::<LineValueModel, ParseError>(LineValueModel::Many(seq![e0(v0), e1(v1), e2(v2), e3(v3), e4(v4)])),
            Err(e) => Err(e),
        },
{
    let types = seq![d0, d1, d2, d3, d4];
    let ty = LineTypeModel::Tuple(types);
    let words = tokens(line);
    assert(types.len() == 5);
    if words.len() >= 5 {
        assert(slots(ty, words, 0) == Ok::<Seq<ScalarModel>, ParseError>(Seq::empty()));
        lemma_slot_agrees::<T0>(d0, e0, ty, words, 0);
        lemma_slot_agrees::<T1>(d1, e1, ty, words, 1);
        lemma_slot_agrees::<T2>(d2, e2, ty, words, 2);
        lemma_slot_agrees::<T3>(d3, e3, ty, words, 3);
        lemma_slot_agrees::<T4>(d4, e4, ty, words, 4);
        if slot_value::<T0>(words, 0) is Ok && slot_value::<T1>(words, 1) is Ok && slot_value::<T2>(words, 2) is Ok && slot_value::<T3>(words, 3) is Ok && slot_value::<T4>(words, 4) is Ok {
            assert(slots(ty, words, 5)->Ok_0 =~= seq![e0(slot_value::<T0>(words, 0)->Ok_0), e1(slot_value::<T1>(words, 1)->Ok_0), e2(slot_value::<T2>(words, 2)->Ok_0), e3(slot_value::<T3>(words, 3)->Ok_0), e4(slot_value::<T4>(words, 4)->Ok_0)]);
        }
    }
}

/// A line is read as a tuple of six as it is read under the declared
/// tuple of the same slots.
pub proof fn lemma_tuple_of_six_agrees<T0: FromToken, T1: FromToken, T2: FromToken, T3: FromToken, T4: FromToken, T5: FromToken>(
    d0: Primitive,
    e0: spec_fn(T0::V) -> ScalarModel,
    d1: Primitive,
    e1: spec_fn(T1::V) -> ScalarModel,
    d2: Primitive,
    e2: spec_fn(T2::V) -> ScalarModel,
    d3: Primitive,
    e3: spec_fn(T3::V) -> ScalarModel,
    d4: Primitive,
    e4: spec_fn(T4::V) -> ScalarModel,
    d5: Primitive,
    e5: spec_fn(T5::V) -> ScalarModel,
    line: Seq<char>,
)
    requires
        reads_as::<T0>(d0, e0),
        reads_as::<T1>(d1, e1),
        reads_as::<T2>(d2, e2),
        reads_as::<T3>(d3, e3),
        reads_as::<T4>(d4, e4),
        reads_as::<T5>(d5, e5),
    ensures
        line_value(LineTypeModel::Tuple(seq![d0, d1, d2, d3, d4, d5]), line) == match <(T0, T1, T2, T3, T4, T5)>::line_value(line) {
            Ok((v0, v1, v2, v3, v4, v5)) => Ok::<LineValueModel, ParseError>(LineValueModel::Many(seq![e0(v0), e1(v1), e2(v2), e3(v3), e4(v4), e5(v5)])),
            Err(e) => Err(e),
        },
{
    let types = seq![d0, d1, d2, d3, d4, d5];
    let ty = LineTypeModel::Tuple(types);
    let words = tokens(line);
    assert(types.len() == 6);
    if words.len() >= 6 {
        assert(slots(ty, words, 0) == Ok::<Seq<ScalarModel>, ParseError>(Seq::empty()));
        lemma_slot_agrees::<T0>(d0, e0, ty, words, 0);
        lemma_slot_agrees::<T1>(d1, e1, ty, words, 1);
        lemma_slot_agrees::<T2>(d2, e2, ty, words, 2);
        lemma_slot_agrees::<T3>(d3, e3, ty, words, 3);
        lemma_slot_agrees::<T4>(d4, e4, ty, words, 4);
        lemma_slot_agrees::<T5>(d5, e5, ty, words, 5);
        if slot_value::<T0>(words, 0) is Ok && slot_value::<T1>(words, 1) is Ok && slot_value::<T2>(words, 2) is Ok && slot_value::<T3>(words, 3) is Ok && slot_value::<T4>(words, 4) is Ok && slot_value::<T5>(words, 5) is Ok {
            assert(slots(ty, words, 6)->Ok_0 =~= seq![e0(slot_value::<T0>(words, 0)->Ok_0), e1(slot_value::<T1>(words, 1)->Ok_0), e2(slot_value::<T2>(words, 2)->Ok_0), e3(slot_value::<T3>(words, 3)->Ok_0), e4(slot_value::<T4>(words, 4)->Ok_0), e5(slot_value::<T5>(words, 5)->Ok_0)]);
        }
    }
}

/// A line is read as a tuple of seven as it is read under the declared
/// tuple of the same slots.
pub proof fn lemma_tuple_of_seven_agrees<T0: FromToken, T1: FromToken, T2: FromToken, T3: FromToken, T4: FromToken, T5: FromToken, T6: FromToken>(
    d0: Primitive,
    e0: spec_fn(T0::V) -> ScalarModel,
    d1: Primitive,
    e1: spec_fn(T1::V) -> ScalarModel,
    d2: Primitive,
    e2: spec_fn(T2::V) -> ScalarModel,
    d3: Primitive,
    e3: spec_fn(T3::V) -> ScalarModel,
    d4: Primitive,
    e4: spec_fn(T4::V) -> ScalarModel,
    d5: Primitive,
    e5: spec_fn(T5::V) -> ScalarModel,
    d6: Primitive,
    e6: spec_fn(T6::V) -> ScalarModel,
    line: Seq<char>,
)
    requires
        reads_as::<T0>(d0, e0),
        reads_as::<T1>(d1, e1),
        reads_as::<T2>(d2, e2),
        reads_as::<T3>(d3, e3),
        reads_as::<T4>(d4, e4),
        reads_as::<T5>(d5, e5),
        reads_as::<T6>(d6, e6),
    ensures
        line_value(LineTypeModel::Tuple(seq![d0, d1, d2, d3, d4, d5, d6]), line) == match <(T0, T1, T2, T3, T4, T5, T6)>::line_value(line) {
            Ok((v0, v1, v2, v3, v4, v5, v6)) => Ok::<LineValueModel, ParseError>(LineValueModel::Many(seq![e0(v0), e1(v1), e2(v2), e3(v3), e4(v4), e5(v5), e6(v6)])),
            Err(e) => Err(e),
        },
{
    let types = seq![d0, d1, d2, d3, d4, d5, d6];
    let ty = LineTypeModel::Tuple(types);
    let words = tokens(line);
    assert(types.len() == 7);
    if words.len() >= 7 {
        assert(slots(ty, words, 0) == Ok::<Seq<ScalarModel>, ParseError>(Seq::empty()));
        lemma_slot_agrees::<T0>(d0, e0, ty, words, 0);
        lemma_slot_agrees::<T1>(d1, e1, ty, words, 1);
        lemma_slot_agrees::<T2>(d2, e2, ty, words, 2);
        lemma_slot_agrees::<T3>(d3, e3, ty, words, 3);
        lemma_slot_agrees::<T4>(d4, e4, ty, words, 4);
        lemma_slot_agrees::<T5>(d5, e5, ty, words, 5);
        lemma_slot_agrees::<T6>(d6, e6, ty, words, 6);
        if slot_value::<T0>(words, 0) is Ok && slot_value::<T1>(words, 1) is Ok && slot_value::<T2>(words, 2) is Ok && slot_value::<T3>(words, 3) is Ok && slot_value::<T4>(words, 4) is Ok && slot_value::<T5>(words, 5) is Ok && slot_value::<T6>(words, 6) is Ok {
            assert(slots(ty, words, 7)->Ok_0 =~= seq![e0(slot_value::<T0>(words, 0)->Ok_0), e1(slot_value::<T1>(words, 1)->Ok_0), e2(slot_value::<T2>(words, 2)->Ok_0), e3(slot_value::<T3>(words, 3)->Ok_0), e4(slot_value::<T4>(words, 4)->Ok_0), e5(slot_value::<T5>(words, 5)->Ok_0), e6(slot_value::<T6>(words, 6)->Ok_0)]);
        }
    }
}

/// A line is read as a tuple of eight as it is read under the declared
/// tuple of the same slots.
pub proof fn lemma_tuple_of_eight_agrees<T0: FromToken, T1: FromToken, T2: FromToken, T3: FromToken, T4: FromToken, T5: FromToken, T6: FromToken, T7: FromToken>(
    d0: Primitive,
    e0: spec_fn(T0::V) -> ScalarModel,
    d1: Primitive,
    e1: spec_fn(T1::V) -> ScalarModel,
    d2: Primitive,
    e2: spec_fn(T2::V) -> ScalarModel,
    d3: Primitive,
    e3: spec_fn(T3::V) -> ScalarModel,
    d4: Primitive,
    e4: spec_fn(T4::V) -> ScalarModel,
    d5: Primitive,
    e5: spec_fn(T5::V) -> ScalarModel,
    d6: Primitive,
    e6: spec_fn(T6::V) -> ScalarModel,
    d7: Primitive,
    e7: spec_fn(T7::V) -> ScalarModel,
    line: Seq<char>,
)
    requires
        reads_as::<T0>(d0, e0),
        reads_as::<T1>(d1, e1),
        reads_as::<T2>(d2, e2),
        reads_as::<T3>(d3, e3),
        reads_as::<T4>(d4, e4),
        reads_as::<T5>(d5, e5),
        reads_as::<T6>(d6, e6),
        reads_as::<T7>(d7, e7),
    ensures
        line_value(LineTypeModel::Tuple(seq![d0, d1, d2, d3, d4, d5, d6, d7]), line) == match <(T0, T1, T2, T3, T4, T5, T6, T7)>::line_value(line) {
            Ok((v0, v1, v2, v3, v4, v5, v6, v7)) => Ok::<LineValueModel, ParseError>(LineValueModel::Many(seq![e0(v0), e1(v1), e2(v2), e3(v3), e4(v4), e5(v5), e6(v6), e7(v7)])),
            Err(e) => Err(e),
        },
{
    let types = seq![d0, d1, d2, d3, d4, d5, d6, d7];
    let ty = LineTypeModel::Tuple(types);
    let words = tokens(line);
    assert(types.len() == 8);
    if words.len() >= 8 {
        assert(slots(ty, words, 0) == Ok::<Seq<ScalarModel>, ParseError>(Seq::empty()));
        lemma_slot_agrees::<T0>(d0, e0, ty, words, 0);
        lemma_slot_agrees::<T1>(d1, e1, ty, words, 1);
        lemma_slot_agrees::<T2>(d2, e2, ty, words, 2);
        lemma_slot_agrees::<T3>(d3, e3, ty, words, 3);
        lemma_slot_agrees::<T4>(d4, e4, ty, words, 4);
        lemma_slot_agrees::<T5>(d5, e5, ty, words, 5);
        lemma_slot_agrees::<T6>(d6, e6, ty, words, 6);
        lemma_slot_agrees::<T7>(d7, e7, ty, words, 7);
        if slot_value::<T0>(words, 0) is Ok && slot_value::<T1>(words, 1) is Ok && slot_value::<T2>(words, 2) is Ok && slot_value::<T3>(words, 3) is Ok && slot_value::<T4>(words, 4) is Ok && slot_value::<T5>(words, 5) is Ok && slot_value::<T6>(words, 6) is Ok && slot_value::<T7>(words, 7) is Ok {
            assert(slots(ty, words, 8)->Ok_0 =~= seq![e0(slot_value::<T0>(words, 0)->Ok_0), e1(slot_value::<T1>(words, 1)->Ok_0), e2(slot_value::<T2>(words, 2)->Ok_0), e3(slot_value::<T3>(words, 3)->Ok_0), e4(slot_value::<T4>(words, 4)->Ok_0), e5(slot_value::<T5>(words, 5)->Ok_0), e6(slot_value::<T6>(words, 6)->Ok_0), e7(slot_value::<T7>(words, 7)->Ok_0)]);
        }
    }
}

/// A line is read as a tuple of nine as it is read under the declared
/// tuple of the same slots.
pub proof fn lemma_tuple_of_nine_agrees<T0: FromToken, T1: FromToken, T2: FromToken, T3: FromToken, T4: FromToken, T5: FromToken, T6: FromToken, T7: FromToken, T8: FromToken>(
    d0: Primitive,
    e0: spec_fn(T0::V) -> ScalarModel,
    d1: Primitive,
    e1: spec_fn(T1::V) -> ScalarModel,
    d2: Primitive,
    e2: spec_fn(T2::V) -> ScalarModel,
    d3: Primitive,
    e3: spec_fn(T3::V) -> ScalarModel,
    d4: Primitive,
    e4: spec_fn(T4::V) -> ScalarModel,
    d5: Primitive,
    e5: spec_fn(T5::V) -> ScalarModel,
    d6: Primitive,
    e6: spec_fn(T6::V) -> ScalarModel,
    d7: Primitive,
    e7: spec_fn(T7::V) -> ScalarModel,
    d8: Primitive,
    e8: spec_fn(T8::V) -> ScalarModel,
    line: Seq<char>,
)
    requires
        reads_as::<T0>(d0, e0),
        reads_as::<T1>(d1, e1),
        reads_as::<T2>(d2, e2),
        reads_as::<T3>(d3, e3),
        reads_as::<T4>(d4, e4),
        reads_as::<T5>(d5, e5),
        reads_as::<T6>(d6, e6),
        reads_as::<T7>(d7, e7),
        reads_as::<T8>(d8, e8),
    ensures
        line_value(LineTypeModel::Tuple(seq![d0, d1, d2, d3, d4, d5, d6, d7, d8]), line) == match <(T0, T1, T2, T3, T4, T5, T6, T7, T8)>::line_value(line) {
            Ok((v0, v1, v2, v3, v4, v5, v6, v7, v8)) => Ok::<LineValueModel, ParseError>(LineValueModel::Many(seq![e0(v0), e1(v1), e2(v2), e3(v3), e4(v4), e5(v5), e6(v6), e7(v7), e8(v8)])),
            Err(e) => Err(e),
        },
{
    let types = seq![d0, d1, d2, d3, d4, d5, d6, d7, d8];
    let ty = LineTypeModel::Tuple(types);
    let words = tokens(line);
    assert(types.len() == 9);
    if words.len() >= 9 {
        assert(slots(ty, words, 0) == Ok::<Seq<ScalarModel>, ParseError>(Seq::empty()));
        lemma_slot_agrees::<T0>(d0, e0, ty, words, 0);
        lemma_slot_agrees::<T1>(d1, e1, ty, words, 1);
        lemma_slot_agrees::<T2>(d2, e2, ty, words, 2);
        lemma_slot_agrees::<T3>(d3, e3, ty, words, 3);
        lemma_slot_agrees::<T4>(d4, e4, ty, words, 4);
        lemma_slot_agrees::<T5>(d5, e5, ty, words, 5);
        lemma_slot_agrees::<T6>(d6, e6, ty, words, 6);
        lemma_slot_agrees::<T7>(d7, e7, ty, words, 7);
        lemma_slot_agrees::<T8>(d8, e8, ty, words, 8);
        if slot_value::<T0>(words, 0) is Ok && slot_value::<T1>(words, 1) is Ok && slot_value::<T2>(words, 2) is Ok && slot_value::<T3>(words, 3) is Ok && slot_value::<T4>(words, 4) is Ok && slot_value::<T5>(words, 5) is Ok && slot_value::<T6>(words, 6) is Ok && slot_value::<T7>(words, 7) is Ok && slot_value::<T8>(words, 8) is Ok {
            assert(slots(ty, words, 9)->Ok_0 =~= seq![e0(slot_value::<T0>(words, 0)->Ok_0), e1(slot_value::<T1>(words, 1)->Ok_0), e2(slot_value::<T2>(words, 2)->Ok_0), e3(slot_value::<T3>(words, 3)->Ok_0), e4(slot_value::<T4>(words, 4)->Ok_0), e5(slot_value::<T5>(words, 5)->Ok_0), e6(slot_value::<T6>(words, 6)->Ok_0), e7(slot_value::<T7>(words, 7)->Ok_0), e8(slot_value::<T8>(words, 8)->Ok_0)]);
        }
    }
}

/// A line is read as a tuple of ten as it is read under the declared
/// tuple of the same slots.
pub proof fn lemma_tuple_of_ten_agrees<T0: FromToken, T1: FromToken, T2: FromToken, T3: FromToken, T4: FromToken, T5: FromToken, T6: FromToken, T7: FromToken, T8: FromToken, T9: FromToken>(
    d0: Primitive,
    e0: spec_fn(T0::V) -> ScalarModel,
    d1: Primitive,
    e1: spec_fn(T1::V) -> ScalarModel,
    d2: Primitive,
    e2: spec_fn(T2::V) -> ScalarModel,
    d3: Primitive,
    e3: spec_fn(T3::V) -> ScalarModel,
    d4: Primitive,
    e4: spec_fn(T4::V) -> ScalarModel,
    d5: Primitive,
    e5: spec_fn(T5::V) -> ScalarModel,
    d6: Primitive,
    e6: spec_fn(T6::V) -> ScalarModel,
    d7: Primitive,
    e7: spec_fn(T7::V) -> ScalarModel,
    d8: Primitive,
    e8: spec_fn(T8::V) -> ScalarModel,
    d9: Primitive,
    e9: spec_fn(T9::V) -> ScalarModel,
    line: Seq<char>,
)
    requires
        reads_as::<T0>(d0, e0),
        reads_as::<T1>(d1, e1),
        reads_as::<T2>(d2, e2),
        reads_as::<T3>(d3, e3),
        reads_as::<T4>(d4, e4),
        reads_as::<T5>(d5, e5),
        reads_as::<T6>(d6, e6),
        reads_as::<T7>(d7, e7),
        reads_as::<T8>(d8, e8),
        reads_as::<T9>(d9, e9),
    ensures
        line_value(LineTypeModel::Tuple(seq![d0, d1, d2, d3, d4, d5, d6, d7, d8, d9]), line) == match <(T0, T1, T2, T3, T4, T5, T6, T7, T8, T9)>::line_value(line) {
            Ok((v0, v1, v2, v3, v4, v5, v6, v7, v8, v9)) => Ok::<LineValueModel, ParseError>(LineValueModel::Many(seq![e0(v0), e1(v1), e2(v2), e3(v3), e4(v4), e5(v5), e6(v6), e7(v7), e8(v8), e9(v9)])),
            Err(e) => Err(e),
        },
{
    let types = seq![d0, d1, d2, d3, d4, d5, d6, d7, d8, d9];
    let ty = LineTypeModel::Tuple(types);
    let words = tokens(line);
    assert(types.len() == 10);
    if words.len() >= 10 {
        assert(slots(ty, words, 0) == Ok::<Seq<ScalarModel>, ParseError>(Seq::empty()));
        lemma_slot_agrees::<T0>(d0, e0, ty, words, 0);
        lemma_slot_agrees::<T1>(d1, e1, ty, words, 1);
        lemma_slot_agrees::<T2>(d2, e2, ty, words, 2);
        lemma_slot_agrees::<T3>(d3, e3, ty, words, 3);
        lemma_slot_agrees::<T4>(d4, e4, ty, words, 4);
        lemma_slot_agrees::<T5>(d5, e5, ty, words, 5);
        lemma_slot_agrees::<T6>(d6, e6, ty, words, 6);
        lemma_slot_agrees::<T7>(d7, e7, ty, words, 7);
        lemma_slot_agrees::<T8>(d8, e8, ty, words, 8);
        lemma_slot_agrees::<T9>(d9, e9, ty, words, 9);
        if slot_value::<T0>(words, 0) is Ok && slot_value::<T1>(words, 1) is Ok && slot_value::<T2>(words, 2) is Ok && slot_value::<T3>(words, 3) is Ok && slot_value::<T4>(words, 4) is Ok && slot_value::<T5>(words, 5) is Ok && slot_value::<T6>(words, 6) is Ok && slot_value::<T7>(words, 7) is Ok && slot_value::<T8>(words, 8) is Ok && slot_value::<T9>(words, 9) is Ok {
            assert(slots(ty, words, 10)->Ok_0 =~= seq![e0(slot_value::<T0>(words, 0)->Ok_0), e1(slot_value::<T1>(words, 1)->Ok_0), e2(slot_value::<T2>(words, 2)->Ok_0), e3(slot_value::<T3>(words, 3)->Ok_0), e4(slot_value::<T4>(words, 4)->Ok_0), e5(slot_value::<T5>(words, 5)->Ok_0), e6(slot_value::<T6>(words, 6)->Ok_0), e7(slot_value::<T7>(words, 7)->Ok_0), e8(slot_value::<T8>(words, 8)->Ok_0), e9(slot_value::<T9>(words, 9)->Ok_0)]);
        }
    }
}

} // verus!
