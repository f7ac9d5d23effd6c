//! The capabilities a value type can have: to be converted from one token, to
//! be read from one line, from a counted block of lines, or from the input as
//! a whole record.

use crate::error::{agrees, ConversionError, ParseError};
use crate::number::{
    canonical, integer, is_canonical, lemma_canonical_reads_back, lemma_reads_canonical,
    parse_integer,
};
use crate::read::{lemma_rows_failure_stays, line, rows, Reader};
use crate::text::{split_whitespace, tokens, trim, trimmed, views};
use crate::value::{bool_value, char_value, parse_bool, parse_char};
use vstd::prelude::*;

verus! {

/// A type whose values can be converted from a single token.
pub trait FromToken: Sized + DeepView {
    /// What `token` denotes as a value of this type.
    spec fn token_value(token: Seq<char>) -> Result<Self::V, ConversionError>;

    /// Converts `token` to a value.
    fn from_token(token: &str) -> (r: Result<Self, ConversionError>)
        ensures
            agrees(r, Self::token_value(token@)),
    ;
}

/// A type whose values can be read from a single line.
pub trait InlineTestCase: Sized + DeepView {
    /// What `line` denotes as a value of this type.
    spec fn line_value(line: Seq<char>) -> Result<Self::V, ParseError>;

    /// Reads a value from `buffer`, a line without its line feed.
    fn parse_line(buffer: &str) -> (r: Result<Self, ParseError>)
        ensures
            agrees(r, Self::line_value(buffer@)),
    ;
}

/// A type whose values are read from a given number of lines.
pub trait BlockTestCase: Sized + DeepView {
    /// Reading a value from the first `n` lines of `input`: the value or the
    /// failure, and the input that is left.
    spec fn block_value(input: Seq<char>, n: nat) -> (Result<Self::V, ParseError>, Seq<char>);

    /// Reads a value from the next `n` lines of `reader`.
    fn parse_n(reader: &mut Reader, n: usize) -> (r: Result<Self, ParseError>)
        ensures
            agrees(r, Self::block_value(old(reader)@, n as nat).0),
            final(reader)@ == Self::block_value(old(reader)@, n as nat).1,
    ;
}

/// A type whose values are read from the input as a whole record, taking as
/// many lines as the record needs.
pub trait TestCase: Sized + DeepView {
    /// Reading a value from the start of `input`: the value or the failure,
    /// and the input that is left.
    spec fn record_value(input: Seq<char>) -> (Result<Self::V, ParseError>, Seq<char>);

    /// Reads a value from `reader`.
    fn parse(reader: &mut Reader) -> (r: Result<Self, ParseError>)
        ensures
            agrees(r, Self::record_value(old(reader)@).0),
            final(reader)@ == Self::record_value(old(reader)@).1,
    ;
}

/// The line parser of `T`, as a function.
pub open spec fn line_parser<T: InlineTestCase>() -> spec_fn(Seq<char>) -> Result<
    T::V,
    ParseError,
> {
    |line: Seq<char>| T::line_value(line)
}

/// What the token in position `slot` of `words` denotes as a `T`.
pub open spec fn slot_value<T: FromToken>(words: Seq<Seq<char>>, slot: int) -> Result<
    T::V,
    ParseError,
> {
    match T::token_value(words[slot]) {
        Ok(v) => Ok(v),
        Err(kind) => Err(ParseError::Conversion { slot: slot as usize, kind }),
    }
}

/// What the tokens `words` denote as values of `T`, one each: the values in
/// order, or the failure of the first token that does not convert.
pub open spec fn elements<T: FromToken>(words: Seq<Seq<char>>) -> Result<Seq<T::V>, ParseError>
    decreases words.len(),
{
    if words.len() == 0 {
        Ok(Seq::empty())
    } else {
        match elements::<T>(words.drop_last()) {
            Err(e) => Err(e),
            Ok(values) => match slot_value::<T>(words, words.len() - 1) {
                Ok(v) => Ok(values.push(v)),
                Err(e) => Err(e),
            },
        }
    }
}

/// A failure among the first tokens of a line is the failure of the line.
pub proof fn lemma_elements_failure_stays<T: FromToken>(words: Seq<Seq<char>>, k: int)
    requires
        0 <= k <= words.len(),
        elements::<T>(words.take(k)) is Err,
    ensures
        elements::<T>(words) == elements::<T>(words.take(k)),
    decreases words.len() - k,
{
    if k == words.len() {
        assert(words.take(k) =~= words);
    } else {
        let head = words.drop_last();
        assert(head.take(k) =~= words.take(k));
        lemma_elements_failure_stays::<T>(head, k);
    }
}

/// Tokens that all convert give as many values as there are tokens.
pub proof fn lemma_elements_len<T: FromToken>(words: Seq<Seq<char>>)
    requires
        elements::<T>(words) is Ok,
    ensures
        elements::<T>(words)->Ok_0.len() == words.len(),
    decreases words.len(),
{
    if words.len() > 0 {
        lemma_elements_len::<T>(words.drop_last());
    }
}

/// Converts the token in position `slot` of `words`.
pub(crate) fn convert_slot<T: FromToken>(words: &Vec<&str>, slot: usize) -> (r: Result<T, ParseError>)
    requires
        slot < words.len(),
    ensures
        agrees(r, slot_value::<T>(views(words@), slot as int)),
{
    match T::from_token(words[slot]) {
        Ok(v) => Ok(v),
        Err(kind) => Err(ParseError::Conversion { slot, kind }),
    }
}

/// Converts every token of `words`, stopping at the first that fails.
pub fn convert_all<T: FromToken>(words: &Vec<&str>) -> (r: Result<Vec<T>, ParseError>)
    ensures
        agrees(r, elements::<T>(views(words@))),
{
    let mut out: Vec<T> = Vec::new();
    let mut i: usize = 0;
    let ghost all = views(words@);
    assert(all.take(0) =~= Seq::<Seq<char>>::empty());
    assert(out.deep_view() =~= Seq::<T::V>::empty());
    while i < words.len()
        invariant
            i <= words.len(),
            all == views(words@),
            elements::<T>(all.take(i as int)) == Ok::<Seq<T::V>, ParseError>(out.deep_view()),
        decreases words.len() - i,
    {
        proof {
            assert(all.take(i + 1).drop_last() =~= all.take(i as int));
            assert(all.take(i + 1)[i as int] == all[i as int]);
        }
        match convert_slot::<T>(words, i) {
            Ok(v) => {
                let ghost before = out.deep_view();
                out.push(v);
                assert(out.deep_view() =~= before.push(v.deep_view()));
            },
            Err(e) => {
                proof {
                    lemma_elements_failure_stays::<T>(all, i + 1);
                }
                return Err(e);
            },
        }
        i += 1;
    }
    assert(all.take(i as int) =~= all);
    Ok(out)
}

/// What a whole line denotes as a `T`, taken as one token.
pub open spec fn whole_line<T: FromToken>(line: Seq<char>) -> Result<T::V, ParseError> {
    match T::token_value(line) {
        Ok(v) => Ok(v),
        Err(kind) => Err(ParseError::Conversion { slot: 0, kind }),
    }
}

/// Converts a whole line, taken as one token.
pub fn whole<T: FromToken>(buffer: &str) -> (r: Result<T, ParseError>)
    ensures
        agrees(r, whole_line::<T>(buffer@)),
{
    match T::from_token(buffer) {
        Ok(v) => Ok(v),
        Err(kind) => Err(ParseError::Conversion { slot: 0, kind }),
    }
}

impl FromToken for String {
    /// A token is the text it is made of.
    open spec fn token_value(token: Seq<char>) -> Result<Seq<char>, ConversionError> {
        Ok(token)
    }

    fn from_token(token: &str) -> (r: Result<String, ConversionError>) {
        Ok(token.to_owned())
    }
}

impl FromToken for bool {
    /// A token is the truth value it spells: `true` or `false`.
    open spec fn token_value(token: Seq<char>) -> Result<bool, ConversionError> {
        bool_value(token)
    }

    fn from_token(token: &str) -> (r: Result<bool, ConversionError>) {
        parse_bool(token)
    }
}

impl FromToken for char {
    /// A token is the one character it is made of.
    open spec fn token_value(token: Seq<char>) -> Result<char, ConversionError> {
        char_value(token)
    }

    fn from_token(token: &str) -> (r: Result<char, ConversionError>) {
        parse_char(token)
    }
}

impl InlineTestCase for String {
    /// A line of text is the line without the white space at its ends.
    open spec fn line_value(line: Seq<char>) -> Result<Seq<char>, ParseError> {
        Ok(trimmed(line))
    }

    fn parse_line(buffer: &str) -> (r: Result<String, ParseError>) {
        Ok(trim(buffer).to_owned())
    }
}

impl<T: FromToken> InlineTestCase for Vec<T> {
    /// A sequence takes every token of the line, however many there are.
    open spec fn line_value(line: Seq<char>) -> Result<Seq<T::V>, ParseError> {
        elements::<T>(tokens(line))
    }

    fn parse_line(buffer: &str) -> (r: Result<Vec<T>, ParseError>) {
        let words = split_whitespace(buffer);
        convert_all::<T>(&words)
    }
}

/// `Vec::try_into` for arrays: the items of `items` as an array of `N`, or
/// `items` itself where it does not hold exactly `N`.
#[verifier::external_body]
fn into_array<T, const N: usize>(items: Vec<T>) -> (r: Result<[T; N], Vec<T>>)
    ensures
        match r {
            Ok(array) => items@.len() == N && array@ == items@,
            Err(back) => items@.len() != N && back@ == items@,
        },
{
    items.try_into()
}

impl<T: FromToken, const N: usize> InlineTestCase for [T; N] {
    /// An array of `N` takes a line of exactly `N` tokens. Every token of
    /// the line is converted first; the values are then counted.
    open spec fn line_value(line: Seq<char>) -> Result<Seq<T::V>, ParseError> {
        let words = tokens(line);
        match elements::<T>(words) {
            Err(e) => Err(e),
            Ok(values) => if words.len() != N {
                Err(ParseError::WrongSize { expected: N, found: words.len() as usize })
            } else {
                Ok(values)
            },
        }
    }

    fn parse_line(buffer: &str) -> (r: Result<[T; N], ParseError>) {
        let words = split_whitespace(buffer);
        match convert_all::<T>(&words) {
            Err(e) => Err(e),
            Ok(items) => {
                let ghost values = items.deep_view();
                proof {
                    lemma_elements_len::<T>(views(words@));
                }
                match into_array::<T, N>(items) {
                    Ok(array) => {
                        assert(array.deep_view() =~= values);
                        Ok(array)
                    },
                    Err(back) => Err(ParseError::WrongSize { expected: N, found: back.len() }),
                }
            },
        }
    }
}

impl<T: InlineTestCase> BlockTestCase for Vec<T> {
    /// A block is read row by row, each row from one line.
    open spec fn block_value(input: Seq<char>, n: nat) -> (
        Result<Seq<T::V>, ParseError>,
        Seq<char>,
    ) {
        rows(input, n, line_parser::<T>())
    }

    fn parse_n(reader: &mut Reader, n: usize) -> (r: Result<Vec<T>, ParseError>) {
        let ghost input = reader@;
        let ghost row = line_parser::<T>();
        let mut out: Vec<T> = Vec::new();
        let mut i: usize = 0;
        assert(out.deep_view() =~= Seq::<T::V>::empty());
        while i < n
            invariant
                i <= n,
                input == old(reader)@,
                row == line_parser::<T>(),
                rows(input, i as nat, row) == (
                    Ok::<Seq<T::V>, ParseError>(out.deep_view()),
                    reader@,
                ),
            decreases n - i,
        {
            let ghost left = reader@;
            let text = match reader.read_line() {
                Some(text) => text,
                None => {
                    proof {
                        assert(rows(input, (i + 1) as nat, row) == (
                            Err::<Seq<T::V>, ParseError>(ParseError::ShortRead),
                            left,
                        ));
                        lemma_rows_failure_stays(input, (i + 1) as nat, n as nat, row);
                    }
                    return Err(ParseError::ShortRead);
                },
            };
            match T::parse_line(trim(text.as_str())) {
                Ok(v) => {
                    let ghost before = out.deep_view();
                    out.push(v);
                    assert(out.deep_view() =~= before.push(v.deep_view()));
                },
                Err(e) => {
                    proof {
                        assert(rows(input, (i + 1) as nat, row).0 == Err::<Seq<T::V>, ParseError>(
                            e,
                        ));
                        lemma_rows_failure_stays(input, (i + 1) as nat, n as nat, row);
                    }
                    return Err(e);
                },
            }
            i += 1;
        }
        Ok(out)
    }
}

impl<T: InlineTestCase> TestCase for T {
    /// A value that fits on one line is a record of one line.
    open spec fn record_value(input: Seq<char>) -> (Result<T::V, ParseError>, Seq<char>) {
        line(input, line_parser::<T>())
    }

    fn parse(reader: &mut Reader) -> (r: Result<T, ParseError>) {
        match reader.read_line() {
            Some(text) => T::parse_line(trim(text.as_str())),
            None => Err(ParseError::ShortRead),
        }
    }
}

impl FromToken for u8 {
    /// A token is the number it spells, where that number is no larger
    /// than `u8::MAX`. It may start with `+`.
    open spec fn token_value(token: Seq<char>) -> Result<u8, ConversionError> {
        match integer(token, 0, u8::MAX as int) {
            Ok(v) => Ok(v as u8),
            Err(e) => Err(e),
        }
    }

    fn from_token(token: &str) -> (r: Result<u8, ConversionError>) {
        match parse_integer(token, 0, u8::MAX as u128) {
            Ok((_, magnitude)) => Ok(magnitude as u8),
            Err(e) => Err(e),
        }
    }
}

impl FromToken for u16 {
    /// A token is the number it spells, where that number is no larger
    /// than `u16::MAX`. It may start with `+`.
    open spec fn token_value(token: Seq<char>) -> Result<u16, ConversionError> {
        match integer(token, 0, u16::MAX as int) {
            Ok(v) => Ok(v as u16),
            Err(e) => Err(e),
        }
    }

    fn from_token(token: &str) -> (r: Result<u16, ConversionError>) {
        match parse_integer(token, 0, u16::MAX as u128) {
            Ok((_, magnitude)) => Ok(magnitude as u16),
            Err(e) => Err(e),
        }
    }
}

impl FromToken for u32 {
    /// A token is the number it spells, where that number is no larger
    /// than `u32::MAX`. It may start with `+`.
    open spec fn token_value(token: Seq<char>) -> Result<u32, ConversionError> {
        match integer(token, 0, u32::MAX as int) {
            Ok(v) => Ok(v as u32),
            Err(e) => Err(e),
        }
    }

    fn from_token(token: &str) -> (r: Result<u32, ConversionError>) {
        match parse_integer(token, 0, u32::MAX as u128) {
            Ok((_, magnitude)) => Ok(magnitude as u32),
            Err(e) => Err(e),
        }
    }
}

impl FromToken for u64 {
    /// A token is the number it spells, where that number is no larger
    /// than `u64::MAX`. It may start with `+`.
    open spec fn token_value(token: Seq<char>) -> Result<u64, ConversionError> {
        match integer(token, 0, u64::MAX as int) {
            Ok(v) => Ok(v as u64),
            Err(e) => Err(e),
        }
    }

    fn from_token(token: &str) -> (r: Result<u64, ConversionError>) {
        match parse_integer(token, 0, u64::MAX as u128) {
            Ok((_, magnitude)) => Ok(magnitude as u64),
            Err(e) => Err(e),
        }
    }
}

impl FromToken for u128 {
    /// A token is the number it spells, where that number is no larger
    /// than `u128::MAX`. It may start with `+`.
    open spec fn token_value(token: Seq<char>) -> Result<u128, ConversionError> {
        match integer(token, 0, u128::MAX as int) {
            Ok(v) => Ok(v as u128),
            Err(e) => Err(e),
        }
    }

    fn from_token(token: &str) -> (r: Result<u128, ConversionError>) {
        match parse_integer(token, 0, u128::MAX as u128) {
            Ok((_, magnitude)) => Ok(magnitude as u128),
            Err(e) => Err(e),
        }
    }
}

impl FromToken for usize {
    /// A token is the number it spells, where that number is no larger
    /// than `usize::MAX`. It may start with `+`.
    open spec fn token_value(token: Seq<char>) -> Result<usize, ConversionError> {
        match integer(token, 0, usize::MAX as int) {
            Ok(v) => Ok(v as usize),
            Err(e) => Err(e),
        }
    }

    fn from_token(token: &str) -> (r: Result<usize, ConversionError>) {
        match parse_integer(token, 0, usize::MAX as u128) {
            Ok((_, magnitude)) => Ok(magnitude as usize),
            Err(e) => Err(e),
        }
    }
}

impl FromToken for i8 {
    /// A token is the number it spells, where that number lies between
    /// `i8::MIN` and `i8::MAX`. It may start with `+` or `-`.
    open spec fn token_value(token: Seq<char>) -> Result<i8, ConversionError> {
        match integer(token, i8::MIN as int, i8::MAX as int) {
            Ok(v) => Ok(v as i8),
            Err(e) => Err(e),
        }
    }

    fn from_token(token: &str) -> (r: Result<i8, ConversionError>) {
        match parse_integer(token, i8::MIN as i128, i8::MAX as u128) {
            Ok((negative, magnitude)) => {
                if negative {
                    Ok((-(magnitude as i128)) as i8)
                } else {
                    Ok(magnitude as i8)
                }
            },
            Err(e) => Err(e),
        }
    }
}

impl FromToken for i16 {
    /// A token is the number it spells, where that number lies between
    /// `i16::MIN` and `i16::MAX`. It may start with `+` or `-`.
    open spec fn token_value(token: Seq<char>) -> Result<i16, ConversionError> {
        match integer(token, i16::MIN as int, i16::MAX as int) {
            Ok(v) => Ok(v as i16),
            Err(e) => Err(e),
        }
    }

    fn from_token(token: &str) -> (r: Result<i16, ConversionError>) {
        match parse_integer(token, i16::MIN as i128, i16::MAX as u128) {
            Ok((negative, magnitude)) => {
                if negative {
                    Ok((-(magnitude as i128)) as i16)
                } else {
                    Ok(magnitude as i16)
                }
            },
            Err(e) => Err(e),
        }
    }
}

impl FromToken for i32 {
    /// A token is the number it spells, where that number lies between
    /// `i32::MIN` and `i32::MAX`. It may start with `+` or `-`.
    open spec fn token_value(token: Seq<char>) -> Result<i32, ConversionError> {
        match integer(token, i32::MIN as int, i32::MAX as int) {
            Ok(v) => Ok(v as i32),
            Err(e) => Err(e),
        }
    }

    fn from_token(token: &str) -> (r: Result<i32, ConversionError>) {
        match parse_integer(token, i32::MIN as i128, i32::MAX as u128) {
            Ok((negative, magnitude)) => {
                if negative {
                    Ok((-(magnitude as i128)) as i32)
                } else {
                    Ok(magnitude as i32)
                }
            },
            Err(e) => Err(e),
        }
    }
}

impl FromToken for i64 {
    /// A token is the number it spells, where that number lies between
    /// `i64::MIN` and `i64::MAX`. It may start with `+` or `-`.
    open spec fn token_value(token: Seq<char>) -> Result<i64, ConversionError> {
        match integer(token, i64::MIN as int, i64::MAX as int) {
            Ok(v) => Ok(v as i64),
            Err(e) => Err(e),
        }
    }

    fn from_token(token: &str) -> (r: Result<i64, ConversionError>) {
        match parse_integer(token, i64::MIN as i128, i64::MAX as u128) {
            Ok((negative, magnitude)) => {
                if negative {
                    Ok((-(magnitude as i128)) as i64)
                } else {
                    Ok(magnitude as i64)
                }
            },
            Err(e) => Err(e),
        }
    }
}

impl FromToken for i128 {
    /// A token is the number it spells, where that number lies between
    /// `i128::MIN` and `i128::MAX`. It may start with `+` or `-`.
    open spec fn token_value(token: Seq<char>) -> Result<i128, ConversionError> {
        match integer(token, i128::MIN as int, i128::MAX as int) {
            Ok(v) => Ok(v as i128),
            Err(e) => Err(e),
        }
    }

    fn from_token(token: &str) -> (r: Result<i128, ConversionError>) {
        match parse_integer(token, i128::MIN as i128, i128::MAX as u128) {
            Ok((negative, magnitude)) => {
                if negative {
                    if magnitude == 0x8000_0000_0000_0000_0000_0000_0000_0000u128 {
                    Ok(i128::MIN)
                } else {
                    Ok(-(magnitude as i128))
                }
                } else {
                    Ok(magnitude as i128)
                }
            },
            Err(e) => Err(e),
        }
    }
}

impl FromToken for isize {
    /// A token is the number it spells, where that number lies between
    /// `isize::MIN` and `isize::MAX`. It may start with `+` or `-`.
    open spec fn token_value(token: Seq<char>) -> Result<isize, ConversionError> {
        match integer(token, isize::MIN as int, isize::MAX as int) {
            Ok(v) => Ok(v as isize),
            Err(e) => Err(e),
        }
    }

    fn from_token(token: &str) -> (r: Result<isize, ConversionError>) {
        match parse_integer(token, isize::MIN as i128, isize::MAX as u128) {
            Ok((negative, magnitude)) => {
                if negative {
                    Ok((-(magnitude as i128)) as isize)
                } else {
                    Ok(magnitude as isize)
                }
            },
            Err(e) => Err(e),
        }
    }
}

impl InlineTestCase for u8 {
    /// The whole line is the one token.
    open spec fn line_value(line: Seq<char>) -> Result<u8, ParseError> {
        whole_line::<u8>(line)
    }

    fn parse_line(buffer: &str) -> (r: Result<u8, ParseError>) {
        whole::<u8>(buffer)
    }
}

impl InlineTestCase for i8 {
    /// The whole line is the one token.
    open spec fn line_value(line: Seq<char>) -> Result<i8, ParseError> {
        whole_line::<i8>(line)
    }

    fn parse_line(buffer: &str) -> (r: Result<i8, ParseError>) {
        whole::<i8>(buffer)
    }
}

impl InlineTestCase for u16 {
    /// The whole line is the one token.
    open spec fn line_value(line: Seq<char>) -> Result<u16, ParseError> {
        whole_line::<u16>(line)
    }

    fn parse_line(buffer: &str) -> (r: Result<u16, ParseError>) {
        whole::<u16>(buffer)
    }
}

impl InlineTestCase for i16 {
    /// The whole line is the one token.
    open spec fn line_value(line: Seq<char>) -> Result<i16, ParseError> {
        whole_line::<i16>(line)
    }

    fn parse_line(buffer: &str) -> (r: Result<i16, ParseError>) {
        whole::<i16>(buffer)
    }
}

impl InlineTestCase for u32 {
    /// The whole line is the one token.
    open spec fn line_value(line: Seq<char>) -> Result<u32, ParseError> {
        whole_line::<u32>(line)
    }

    fn parse_line(buffer: &str) -> (r: Result<u32, ParseError>) {
        whole::<u32>(buffer)
    }
}

impl InlineTestCase for i32 {
    /// The whole line is the one token.
    open spec fn line_value(line: Seq<char>) -> Result<i32, ParseError> {
        whole_line::<i32>(line)
    }

    fn parse_line(buffer: &str) -> (r: Result<i32, ParseError>) {
        whole::<i32>(buffer)
    }
}

impl InlineTestCase for u64 {
    /// The whole line is the one token.
    open spec fn line_value(line: Seq<char>) -> Result<u64, ParseError> {
        whole_line::<u64>(line)
    }

    fn parse_line(buffer: &str) -> (r: Result<u64, ParseError>) {
        whole::<u64>(buffer)
    }
}

impl InlineTestCase for i64 {
    /// The whole line is the one token.
    open spec fn line_value(line: Seq<char>) -> Result<i64, ParseError> {
        whole_line::<i64>(line)
    }

    fn parse_line(buffer: &str) -> (r: Result<i64, ParseError>) {
        whole::<i64>(buffer)
    }
}

impl InlineTestCase for u128 {
    /// The whole line is the one token.
    open spec fn line_value(line: Seq<char>) -> Result<u128, ParseError> {
        whole_line::<u128>(line)
    }

    fn parse_line(buffer: &str) -> (r: Result<u128, ParseError>) {
        whole::<u128>(buffer)
    }
}

impl InlineTestCase for i128 {
    /// The whole line is the one token.
    open spec fn line_value(line: Seq<char>) -> Result<i128, ParseError> {
        whole_line::<i128>(line)
    }

    fn parse_line(buffer: &str) -> (r: Result<i128, ParseError>) {
        whole::<i128>(buffer)
    }
}

impl InlineTestCase for usize {
    /// The whole line is the one token.
    open spec fn line_value(line: Seq<char>) -> Result<usize, ParseError> {
        whole_line::<usize>(line)
    }

    fn parse_line(buffer: &str) -> (r: Result<usize, ParseError>) {
        whole::<usize>(buffer)
    }
}

impl InlineTestCase for isize {
    /// The whole line is the one token.
    open spec fn line_value(line: Seq<char>) -> Result<isize, ParseError> {
        whole_line::<isize>(line)
    }

    fn parse_line(buffer: &str) -> (r: Result<isize, ParseError>) {
        whole::<isize>(buffer)
    }
}

/// The canonical text of a `u8`, on a line of its own, is read back as
/// that value; and a canonical line that is read as a `u8` is the
/// canonical text of it.
pub proof fn lemma_u8_round_trip(v: u8, line: Seq<char>)
    ensures
        u8::line_value(canonical(v as int)) == Ok::<u8, ParseError>(v),
        is_canonical(line) && u8::line_value(line) == Ok::<u8, ParseError>(v) ==> canonical(
            v as int,
        ) == line,
{
    lemma_canonical_reads_back(v as int, u8::MIN as int, u8::MAX as int);
    if is_canonical(line) && u8::line_value(line) == Ok::<u8, ParseError>(v) {
        lemma_reads_canonical(line, u8::MIN as int, u8::MAX as int);
    }
}

/// The canonical text of a `i8`, on a line of its own, is read back as
/// that value; and a canonical line that is read as a `i8` is the
/// canonical text of it.
pub proof fn lemma_i8_round_trip(v: i8, line: Seq<char>)
    ensures
        i8::line_value(canonical(v as int)) == Ok::<i8, ParseError>(v),
        is_canonical(line) && i8::line_value(line) == Ok::<i8, ParseError>(v) ==> canonical(
            v as int,
        ) == line,
{
    lemma_canonical_reads_back(v as int, i8::MIN as int, i8::MAX as int);
    if is_canonical(line) && i8::line_value(line) == Ok::<i8, ParseError>(v) {
        lemma_reads_canonical(line, i8::MIN as int, i8::MAX as int);
    }
}

/// The canonical text of a `u16`, on a line of its own, is read back as
/// that value; and a canonical line that is read as a `u16` is the
/// canonical text of it.
pub proof fn lemma_u16_round_trip(v: u16, line: Seq<char>)
    ensures
        u16::line_value(canonical(v as int)) == Ok::<u16, ParseError>(v),
        is_canonical(line) && u16::line_value(line) == Ok::<u16, ParseError>(v) ==> canonical(
            v as int,
        ) == line,
{
    lemma_canonical_reads_back(v as int, u16::MIN as int, u16::MAX as int);
    if is_canonical(line) && u16::line_value(line) == Ok::<u16, ParseError>(v) {
        lemma_reads_canonical(line, u16::MIN as int, u16::MAX as int);
    }
}

/// The canonical text of a `i16`, on a line of its own, is read back as
/// that value; and a canonical line that is read as a `i16` is the
/// canonical text of it.
pub proof fn lemma_i16_round_trip(v: i16, line: Seq<char>)
    ensures
        i16::line_value(canonical(v as int)) == Ok::<i16, ParseError>(v),
        is_canonical(line) && i16::line_value(line) == Ok::<i16, ParseError>(v) ==> canonical(
            v as int,
        ) == line,
{
    lemma_canonical_reads_back(v as int, i16::MIN as int, i16::MAX as int);
    if is_canonical(line) && i16::line_value(line) == Ok::<i16, ParseError>(v) {
        lemma_reads_canonical(line, i16::MIN as int, i16::MAX as int);
    }
}

/// The canonical text of a `u32`, on a line of its own, is read back as
/// that value; and a canonical line that is read as a `u32` is the
/// canonical text of it.
pub proof fn lemma_u32_round_trip(v: u32, line: Seq<char>)
    ensures
        u32::line_value(canonical(v as int)) == Ok::<u32, ParseError>(v),
        is_canonical(line) && u32::line_value(line) == Ok::<u32, ParseError>(v) ==> canonical(
            v as int,
        ) == line,
{
    lemma_canonical_reads_back(v as int, u32::MIN as int, u32::MAX as int);
    if is_canonical(line) && u32::line_value(line) == Ok::<u32, ParseError>(v) {
        lemma_reads_canonical(line, u32::MIN as int, u32::MAX as int);
    }
}

/// The canonical text of a `i32`, on a line of its own, is read back as
/// that value; and a canonical line that is read as a `i32` is the
/// canonical text of it.
pub proof fn lemma_i32_round_trip(v: i32, line: Seq<char>)
    ensures
        i32::line_value(canonical(v as int)) == Ok::<i32, ParseError>(v),
        is_canonical(line) && i32::line_value(line) == Ok::<i32, ParseError>(v) ==> canonical(
            v as int,
        ) == line,
{
    lemma_canonical_reads_back(v as int, i32::MIN as int, i32::MAX as int);
    if is_canonical(line) && i32::line_value(line) == Ok::<i32, ParseError>(v) {
        lemma_reads_canonical(line, i32::MIN as int, i32::MAX as int);
    }
}

/// The canonical text of a `u64`, on a line of its own, is read back as
/// that value; and a canonical line that is read as a `u64` is the
/// canonical text of it.
pub proof fn lemma_u64_round_trip(v: u64, line: Seq<char>)
    ensures
        u64::line_value(canonical(v as int)) == Ok::<u64, ParseError>(v),
        is_canonical(line) && u64::line_value(line) == Ok::<u64, ParseError>(v) ==> canonical(
            v as int,
        ) == line,
{
    lemma_canonical_reads_back(v as int, u64::MIN as int, u64::MAX as int);
    if is_canonical(line) && u64::line_value(line) == Ok::<u64, ParseError>(v) {
        lemma_reads_canonical(line, u64::MIN as int, u64::MAX as int);
    }
}

/// The canonical text of a `i64`, on a line of its own, is read back as
/// that value; and a canonical line that is read as a `i64` is the
/// canonical text of it.
pub proof fn lemma_i64_round_trip(v: i64, line: Seq<char>)
    ensures
        i64::line_value(canonical(v as int)) == Ok::<i64, ParseError>(v),
        is_canonical(line) && i64::line_value(line) == Ok::<i64, ParseError>(v) ==> canonical(
            v as int,
        ) == line,
{
    lemma_canonical_reads_back(v as int, i64::MIN as int, i64::MAX as int);
    if is_canonical(line) && i64::line_value(line) == Ok::<i64, ParseError>(v) {
        lemma_reads_canonical(line, i64::MIN as int, i64::MAX as int);
    }
}

/// The canonical text of a `u128`, on a line of its own, is read back as
/// that value; and a canonical line that is read as a `u128` is the
/// canonical text of it.
pub proof fn lemma_u128_round_trip(v: u128, line: Seq<char>)
    ensures
        u128::line_value(canonical(v as int)) == Ok::<u128, ParseError>(v),
        is_canonical(line) && u128::line_value(line) == Ok::<u128, ParseError>(v) ==> canonical(
            v as int,
        ) == line,
{
    lemma_canonical_reads_back(v as int, u128::MIN as int, u128::MAX as int);
    if is_canonical(line) && u128::line_value(line) == Ok::<u128, ParseError>(v) {
        lemma_reads_canonical(line, u128::MIN as int, u128::MAX as int);
    }
}

/// The canonical text of a `i128`, on a line of its own, is read back as
/// that value; and a canonical line that is read as a `i128` is the
/// canonical text of it.
pub proof fn lemma_i128_round_trip(v: i128, line: Seq<char>)
    ensures
        i128::line_value(canonical(v as int)) == Ok::<i128, ParseError>(v),
        is_canonical(line) && i128::line_value(line) == Ok::<i128, ParseError>(v) ==> canonical(
            v as int,
        ) == line,
{
    lemma_canonical_reads_back(v as int, i128::MIN as int, i128::MAX as int);
    if is_canonical(line) && i128::line_value(line) == Ok::<i128, ParseError>(v) {
        lemma_reads_canonical(line, i128::MIN as int, i128::MAX as int);
    }
}

/// The canonical text of a `usize`, on a line of its own, is read back as
/// that value; and a canonical line that is read as a `usize` is the
/// canonical text of it.
pub proof fn lemma_usize_round_trip(v: usize, line: Seq<char>)
    ensures
        usize::line_value(canonical(v as int)) == Ok::<usize, ParseError>(v),
        is_canonical(line) && usize::line_value(line) == Ok::<usize, ParseError>(v) ==> canonical(
            v as int,
        ) == line,
{
    lemma_canonical_reads_back(v as int, usize::MIN as int, usize::MAX as int);
    if is_canonical(line) && usize::line_value(line) == Ok::<usize, ParseError>(v) {
        lemma_reads_canonical(line, usize::MIN as int, usize::MAX as int);
    }
}

/// The canonical text of a `isize`, on a line of its own, is read back as
/// that value; and a canonical line that is read as a `isize` is the
/// canonical text of it.
pub proof fn lemma_isize_round_trip(v: isize, line: Seq<char>)
    ensures
        isize::line_value(canonical(v as int)) == Ok::<isize, ParseError>(v),
        is_canonical(line) && isize::line_value(line) == Ok::<isize, ParseError>(v) ==> canonical(
            v as int,
        ) == line,
{
    lemma_canonical_reads_back(v as int, isize::MIN as int, isize::MAX as int);
    if is_canonical(line) && isize::line_value(line) == Ok::<isize, ParseError>(v) {
        lemma_reads_canonical(line, isize::MIN as int, isize::MAX as int);
    }
}

/// The text of a line, without white space at its ends, is read back as
/// itself; and what is read off a line of text is that text again.
pub proof fn lemma_text_round_trip(text: Seq<char>)
    ensures
        trimmed(text) == text ==> String::line_value(text) == Ok::<Seq<char>, ParseError>(text),
        String::line_value(text) is Ok,
        String::line_value(String::line_value(text)->Ok_0) == String::line_value(text),
{
    crate::text::lemma_trimmed_is_bare(text);
}

} // verus!
