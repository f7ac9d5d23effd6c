use testcase::error::{ConversionError, ParseError};
use testcase::read::{Parse, ParseBlock, ParseLine, Reader};
use testcase::testcase::{BlockTestCase, FromToken, InlineTestCase, TestCase};

#[test]
fn primitive_takes_the_whole_line() {
    assert_eq!(u32::parse_line("18"), Ok(18));
    assert_eq!(i32::parse_line("-42"), Ok(-42));
    assert_eq!(i8::parse_line("-128"), Ok(-128));
    assert_eq!(i128::parse_line("-170141183460469231731687303715884105728"), Ok(i128::MIN));
    assert_eq!(u128::parse_line("340282366920938463463374607431768211455"), Ok(u128::MAX));
    assert_eq!(u64::parse_line("+7"), Ok(7));
    assert_eq!(u64::parse_line("007"), Ok(7));
}

#[test]
fn primitive_rejects_what_is_no_number() {
    let invalid = Err(ParseError::Conversion { slot: 0, kind: ConversionError::InvalidDigit });
    assert_eq!(u32::parse_line("1 2"), invalid);
    assert_eq!(u32::parse_line(" 1"), invalid);
    assert_eq!(u32::parse_line("12x"), invalid);
    assert_eq!(u32::parse_line("-1"), invalid);
    assert_eq!(u32::parse_line("-0"), invalid);
    assert_eq!(u32::parse_line("+"), invalid);
    assert_eq!(
        i32::parse_line("-"),
        Err(ParseError::Conversion { slot: 0, kind: ConversionError::InvalidDigit })
    );
    assert_eq!(
        u32::parse_line(""),
        Err(ParseError::Conversion { slot: 0, kind: ConversionError::Empty })
    );
}

#[test]
fn primitive_rejects_what_does_not_fit() {
    assert_eq!(u8::from_token("255"), Ok(255));
    assert_eq!(u8::from_token("256"), Err(ConversionError::PosOverflow));
    assert_eq!(i8::from_token("127"), Ok(127));
    assert_eq!(i8::from_token("128"), Err(ConversionError::PosOverflow));
    assert_eq!(i8::from_token("-129"), Err(ConversionError::NegOverflow));
    assert_eq!(
        u128::from_token("340282366920938463463374607431768211456"),
        Err(ConversionError::PosOverflow)
    );
    assert_eq!(
        i128::from_token("-170141183460469231731687303715884105729"),
        Err(ConversionError::NegOverflow)
    );
    assert_eq!(i64::from_token("-0"), Ok(0));
}

#[test]
fn text_is_the_trimmed_line() {
    assert_eq!(String::parse_line("  hello world \n"), Ok("hello world".to_string()));
    assert_eq!(String::parse_line(""), Ok(String::new()));
    assert_eq!(String::parse_line("\u{2003}dan\u{a0}"), Ok("dan".to_string()));
}

#[test]
fn tuple_takes_one_token_per_slot() {
    assert_eq!(<(i32, i32)>::parse_line("1 2"), Ok((1, 2)));
    assert_eq!(<(u8,)>::parse_line("  7  "), Ok((7,)));
    assert_eq!(
        <(usize, String, i32)>::parse_line("18\tdan   42"),
        Ok((18, "dan".to_string(), 42))
    );
    assert_eq!(
        <(u8, u8, u8, u8, u8, u8, u8, u8, u8, u8)>::parse_line("1 2 3 4 5 6 7 8 9 10"),
        Ok((1, 2, 3, 4, 5, 6, 7, 8, 9, 10))
    );
}

#[test]
fn tuple_leaves_trailing_tokens_aside() {
    assert_eq!(<(i32, i32)>::parse_line("1 2 3 x"), Ok((1, 2)));
}

#[test]
fn tuple_with_too_few_tokens_misses_a_slot() {
    assert_eq!(<(i32, i32)>::parse_line("1"), Err(ParseError::MissingSlot { slot: 1 }));
    assert_eq!(<(i32, i32)>::parse_line(""), Err(ParseError::MissingSlot { slot: 0 }));
    assert_eq!(<(i32, i32)>::parse_line("x"), Err(ParseError::MissingSlot { slot: 1 }));
    assert_eq!(<(i32, i32, i32)>::parse_line("1 2"), Err(ParseError::MissingSlot { slot: 2 }));
}

#[test]
fn tuple_names_the_slot_that_does_not_convert() {
    assert_eq!(
        <(usize, String, i32)>::parse_line("18 dan notanumber"),
        Err(ParseError::Conversion { slot: 2, kind: ConversionError::InvalidDigit })
    );
    assert_eq!(
        <(u8, u8)>::parse_line("x y"),
        Err(ParseError::Conversion { slot: 0, kind: ConversionError::InvalidDigit })
    );
}

#[test]
fn array_takes_exactly_its_size() {
    assert_eq!(<[u32; 2]>::parse_line("1 2"), Ok([1, 2]));
    assert_eq!(<[u32; 0]>::parse_line("  "), Ok([]));
    assert_eq!(
        <[u32; 2]>::parse_line("1 2 3"),
        Err(ParseError::WrongSize { expected: 2, found: 3 })
    );
    assert_eq!(<[u32; 2]>::parse_line("1"), Err(ParseError::WrongSize { expected: 2, found: 1 }));
    assert_eq!(
        <[u32; 2]>::parse_line("1 x"),
        Err(ParseError::Conversion { slot: 1, kind: ConversionError::InvalidDigit })
    );
    assert_eq!(
        <[u32; 2]>::parse_line("1 x 3"),
        Err(ParseError::Conversion { slot: 1, kind: ConversionError::InvalidDigit })
    );
    assert_eq!(
        <[u32; 2]>::parse_line("1 2 x"),
        Err(ParseError::Conversion { slot: 2, kind: ConversionError::InvalidDigit })
    );
}

#[test]
fn sequence_takes_every_token() {
    assert_eq!(<Vec<i32>>::parse_line("1 -2 3"), Ok(vec![1, -2, 3]));
    assert_eq!(<Vec<i32>>::parse_line(""), Ok(vec![]));
    assert_eq!(<Vec<String>>::parse_line(" a  b "), Ok(vec!["a".to_string(), "b".to_string()]));
    assert_eq!(
        <Vec<i32>>::parse_line("1 2 x 4 y"),
        Err(ParseError::Conversion { slot: 2, kind: ConversionError::InvalidDigit })
    );
}

#[test]
fn reader_parses_a_line() {
    let mut reader = Reader::new("1 2\n3 4\n");
    assert_eq!(reader.parse_line::<(i32, i32)>(), Ok((1, 2)));
    assert_eq!(reader.parse_line::<(i32, i32)>(), Ok((3, 4)));
    assert!(reader.is_at_end());
    assert_eq!(reader.parse_line::<(i32, i32)>(), Err(ParseError::ShortRead));
}

#[test]
fn reader_parses_a_block() {
    let mut reader = Reader::new("1 2\n3 4\n5 6\n");
    let rows: Vec<Vec<i32>> = reader.parse_lines(2).unwrap();
    assert_eq!(rows, vec![vec![1, 2], vec![3, 4]]);
    assert_eq!(reader.read_line(), Some("5 6\n".to_string()));
    assert_eq!(reader.read_line(), None);
}

#[test]
fn reader_parses_a_block_of_arrays() {
    let mut reader = Reader::new("1 2\n3 4\n");
    let table: Vec<[u32; 2]> = reader.parse_lines(2).unwrap();
    assert_eq!(table, vec![[1, 2], [3, 4]]);
}

#[test]
fn block_of_no_lines_takes_nothing() {
    let mut reader = Reader::new("1 2\n");
    let rows: Vec<(u8, u8)> = Vec::parse_n(&mut reader, 0).unwrap();
    assert_eq!(rows, vec![]);
    assert_eq!(reader.read_line(), Some("1 2\n".to_string()));
}

#[test]
fn block_stops_at_the_first_bad_row() {
    let mut reader = Reader::new("1 2\nx\n5 6\n7 8\n");
    let rows: Result<Vec<(u8, u8)>, ParseError> = reader.parse_lines(3);
    assert_eq!(rows, Err(ParseError::MissingSlot { slot: 1 }));
    assert_eq!(reader.read_line(), Some("5 6\n".to_string()));
}

#[test]
fn block_is_short_when_the_input_ends() {
    let mut reader = Reader::new("1 2\n3 4");
    let rows: Result<Vec<(u8, u8)>, ParseError> = reader.parse_lines(3);
    assert_eq!(rows, Err(ParseError::ShortRead));
    assert!(reader.is_at_end());
}

#[test]
fn last_line_may_lack_its_line_feed() {
    let mut reader = Reader::new("a\r\nb");
    assert_eq!(reader.read_line(), Some("a\r\n".to_string()));
    assert_eq!(reader.read_line(), Some("b".to_string()));
    assert_eq!(reader.read_line(), None);
}

#[test]
fn whole_record_of_one_line() {
    let mut reader = Reader::new(" 18 \n");
    let n: usize = reader.parse_testcase().unwrap();
    assert_eq!(n, 18);
    let mut reader = Reader::new("7\n");
    assert_eq!(u8::parse(&mut reader), Ok(7));
}

#[test]
fn truth_values_and_characters_are_tokens() {
    assert_eq!(bool::from_token("true"), Ok(true));
    assert_eq!(bool::from_token("false"), Ok(false));
    assert_eq!(bool::from_token("True"), Err(ConversionError::NotBool));
    assert_eq!(bool::from_token(""), Err(ConversionError::NotBool));
    assert_eq!(char::from_token("x"), Ok('x'));
    assert_eq!(char::from_token("\u{e9}"), Ok('\u{e9}'));
    assert_eq!(char::from_token(""), Err(ConversionError::NotChar));
    assert_eq!(char::from_token("xy"), Err(ConversionError::NotChar));
    assert_eq!(<(bool, char, u8)>::parse_line("true x 3"), Ok((true, 'x', 3)));
    assert_eq!(<Vec<char>>::parse_line("a b c"), Ok(vec!['a', 'b', 'c']));
    assert_eq!(
        <[bool; 2]>::parse_line("true maybe"),
        Err(ParseError::Conversion { slot: 1, kind: ConversionError::NotBool })
    );
}

#[test]
fn block_is_fed_line_by_line() {
    let mut block: testcase::read::Block<(u8, u8)> = testcase::read::Block::new(2);
    assert!(!block.is_complete());
    assert_eq!(block.feed(Some(" 1 2 \n")), Ok(()));
    assert_eq!(block.feed(Some("x\n")), Err(ParseError::MissingSlot { slot: 1 }));
    assert_eq!(block.feed(None), Err(ParseError::ShortRead));
    assert!(!block.is_complete());
    assert_eq!(block.feed(Some("3 4")), Ok(()));
    assert!(block.is_complete());
    assert_eq!(block.feed(Some("5 6")), Ok(()));
    assert_eq!(block.feed(None), Ok(()));
    assert_eq!(block.finish(), vec![(1, 2), (3, 4)]);
    let empty: testcase::read::Block<u8> = testcase::read::Block::new(0);
    assert!(empty.is_complete());
    assert_eq!(empty.finish(), vec![]);
}
