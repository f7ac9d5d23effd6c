//! Lines read as tuples: one token for each slot, in order, each slot with a
//! type of its own.

use crate::error::ParseError;
use crate::testcase::{convert_slot, slot_value, FromToken, InlineTestCase};
use crate::text::{split_whitespace, tokens};
use vstd::prelude::*;

verus! {

impl<T0: FromToken> InlineTestCase for (T0,) {
    /// A tuple of one takes the first token of the line.
    /// Tokens after it are left aside. A line with fewer tokens fails on
    /// the first slot that stays empty, whatever its tokens hold.
    open spec fn line_value(line: Seq<char>) -> Result<(T0::V,), ParseError> {
        let words = tokens(line);
        if words.len() < 1 {
            Err(ParseError::MissingSlot { slot: words.len() as usize })
        } else if slot_value::<T0>(words, 0) is Err {
            Err(slot_value::<T0>(words, 0)->Err_0)
        } else {
            Ok((
                slot_value::<T0>(words, 0)->Ok_0,
            ))
        }
    }

    fn parse_line(buffer: &str) -> (r: Result<(T0,), ParseError>) {
        let words = split_whitespace(buffer);
        if words.len() < 1 {
            return Err(ParseError::MissingSlot { slot: words.len() });
        }
        let v0 = match convert_slot::<T0>(&words, 0) {
            Ok(v) => v,
            Err(e) => return Err(e),
        };
        Ok((v0,))
    }
}

impl<T0: FromToken, T1: FromToken> InlineTestCase for (T0, T1) {
    /// A tuple of two takes the first two tokens of the line, in order.
    /// Tokens after them are left aside. A line with fewer tokens fails on
    /// the first slot that stays empty, whatever its tokens hold.
    open spec fn line_value(line: Seq<char>) -> Result<(T0::V, T1::V), ParseError> {
        let words = tokens(line);
        if words.len() < 2 {
            Err(ParseError::MissingSlot { slot: words.len() as usize })
        } else if slot_value::<T0>(words, 0) is Err {
            Err(slot_value::<T0>(words, 0)->Err_0)
        } else if slot_value::<T1>(words, 1) is Err {
            Err(slot_value::<T1>(words, 1)->Err_0)
        } else {
            Ok((
                slot_value::<T0>(words, 0)->Ok_0,
                slot_value::<T1>(words, 1)->Ok_0,
            ))
        }
    }

    fn parse_line(buffer: &str) -> (r: Result<(T0, T1), ParseError>) {
        let words = split_whitespace(buffer);
        if words.len() < 2 {
            return Err(ParseError::MissingSlot { slot: words.len() });
        }
        let v0 = match convert_slot::<T0>(&words, 0) {
            Ok(v) => v,
            Err(e) => return Err(e),
        };
        let v1 = match convert_slot::<T1>(&words, 1) {
            Ok(v) => v,
            Err(e) => return Err(e),
        };
        Ok((v0, v1))
    }
}

impl<T0: FromToken, T1: FromToken, T2: FromToken> InlineTestCase for (T0, T1, T2) {
    /// A tuple of three takes the first three tokens of the line, in order.
    /// Tokens after them are left aside. A line with fewer tokens fails on
    /// the first slot that stays empty, whatever its tokens hold.
    open spec fn line_value(line: Seq<char>) -> Result<(T0::V, T1::V, T2::V), ParseError> {
        let words = tokens(line);
        if words.len() < 3 {
            Err(ParseError::MissingSlot { slot: words.len() as usize })
        } else if slot_value::<T0>(words, 0) is Err {
            Err(slot_value::<T0>(words, 0)->Err_0)
        } else if slot_value::<T1>(words, 1) is Err {
            Err(slot_value::<T1>(words, 1)->Err_0)
        } else if slot_value::<T2>(words, 2) is Err {
            Err(slot_value::<T2>(words, 2)->Err_0)
        } else {
            Ok((
                slot_value::<T0>(words, 0)->Ok_0,
                slot_value::<T1>(words, 1)->Ok_0,
                slot_value::<T2>(words, 2)->Ok_0,
            ))
        }
    }

    fn parse_line(buffer: &str) -> (r: Result<(T0, T1, T2), ParseError>) {
        let words = split_whitespace(buffer);
        if words.len() < 3 {
            return Err(ParseError::MissingSlot { slot: words.len() });
        }
        let v0 = match convert_slot::<T0>(&words, 0) {
            Ok(v) => v,
            Err(e) => return Err(e),
        };
        let v1 = match convert_slot::<T1>(&words, 1) {
            Ok(v) => v,
            Err(e) => return Err(e),
        };
        let v2 = match convert_slot::<T2>(&words, 2) {
            Ok(v) => v,
            Err(e) => return Err(e),
        };
        Ok((v0, v1, v2))
    }
}

impl<T0: FromToken, T1: FromToken, T2: FromToken, T3: FromToken> InlineTestCase for (T0, T1, T2, T3) {
    /// A tuple of four takes the first four tokens of the line, in order.
    /// Tokens after them are left aside. A line with fewer tokens fails on
    /// the first slot that stays empty, whatever its tokens hold.
    open spec fn line_value(line: Seq<char>) -> Result<(T0::V, T1::V, T2::V, T3::V), ParseError> {
        let words = tokens(line);
        if words.len() < 4 {
            Err(ParseError::MissingSlot { slot: words.len() as usize })
        } else if slot_value::<T0>(words, 0) is Err {
            Err(slot_value::<T0>(words, 0)->Err_0)
        } else if slot_value::<T1>(words, 1) is Err {
            Err(slot_value::<T1>(words, 1)->Err_0)
        } else if slot_value::<T2>(words, 2) is Err {
            Err(slot_value::<T2>(words, 2)->Err_0)
        } else if slot_value::<T3>(words, 3) is Err {
            Err(slot_value::<T3>(words, 3)->Err_0)
        } else {
            Ok((
                slot_value::<T0>(words, 0)->Ok_0,
                slot_value::<T1>(words, 1)->Ok_0,
                slot_value::<T2>(words, 2)->Ok_0,
                slot_value::<T3>(words, 3)->Ok_0,
            ))
        }
    }

    fn parse_line(buffer: &str) -> (r: Result<(T0, T1, T2, T3), ParseError>) {
        let words = split_whitespace(buffer);
        if words.len() < 4 {
            return Err(ParseError::MissingSlot { slot: words.len() });
        }
        let v0 = match convert_slot::<T0>(&words, 0) {
            Ok(v) => v,
            Err(e) => return Err(e),
        };
        let v1 = match convert_slot::<T1>(&words, 1) {
            Ok(v) => v,
            Err(e) => return Err(e),
        };
        let v2 = match convert_slot::<T2>(&words, 2) {
            Ok(v) => v,
            Err(e) => return Err(e),
        };
        let v3 = match convert_slot::<T3>(&words, 3) {
            Ok(v) => v,
            Err(e) => return Err(e),
        };
        Ok((v0, v1, v2, v3))
    }
}

impl<T0: FromToken, T1: FromToken, T2: FromToken, T3: FromToken, T4: FromToken> InlineTestCase for (T0, T1, T2, T3, T4) {
    /// A tuple of five takes the first five tokens of the line, in order.
    /// Tokens after them are left aside. A line with fewer tokens fails on
    /// the first slot that stays empty, whatever its tokens hold.
    open spec fn line_value(line: Seq<char>) -> Result<(T0::V, T1::V, T2::V, T3::V, T4::V), ParseError> {
        let words = tokens(line);
        if words.len() < 5 {
            Err(ParseError::MissingSlot { slot: words.len() as usize })
        } else if slot_value::<T0>(words, 0) is Err {
            Err(slot_value::<T0>(words, 0)->Err_0)
        } else if slot_value::<T1>(words, 1) is Err {
            Err(slot_value::<T1>(words, 1)->Err_0)
        } else if slot_value::<T2>(words, 2) is Err {
            Err(slot_value::<T2>(words, 2)->Err_0)
        } else if slot_value::<T3>(words, 3) is Err {
            Err(slot_value::<T3>(words, 3)->Err_0)
        } else if slot_value::<T4>(words, 4) is Err {
            Err(slot_value::<T4>(words, 4)->Err_0)
        } else {
            Ok((
                slot_value::<T0>(words, 0)->Ok_0,
                slot_value::<T1>(words, 1)->Ok_0,
                slot_value::<T2>(words, 2)->Ok_0,
                slot_value::<T3>(words, 3)->Ok_0,
                slot_value::<T4>(words, 4)->Ok_0,
            ))
        }
    }

    fn parse_line(buffer: &str) -> (r: Result<(T0, T1, T2, T3, T4), ParseError>) {
        let words = split_whitespace(buffer);
        if words.len() < 5 {
            return Err(ParseError::MissingSlot { slot: words.len() });
        }
        let v0 = match convert_slot::<T0>(&words, 0) {
            Ok(v) => v,
            Err(e) => return Err(e),
        };
        let v1 = match convert_slot::<T1>(&words, 1) {
            Ok(v) => v,
            Err(e) => return Err(e),
        };
        let v2 = match convert_slot::<T2>(&words, 2) {
            Ok(v) => v,
            Err(e) => return Err(e),
        };
        let v3 = match convert_slot::<T3>(&words, 3) {
            Ok(v) => v,
            Err(e) => return Err(e),
        };
        let v4 = match convert_slot::<T4>(&words, 4) {
            Ok(v) => v,
            Err(e) => return Err(e),
        };
        Ok((v0, v1, v2, v3, v4))
    }
}

impl<T0: FromToken, T1: FromToken, T2: FromToken, T3: FromToken, T4: FromToken, T5: FromToken> InlineTestCase for (T0, T1, T2, T3, T4, T5) {
    /// A tuple of six takes the first six tokens of the line, in order.
    /// Tokens after them are left aside. A line with fewer tokens fails on
    /// the first slot that stays empty, whatever its tokens hold.
    open spec fn line_value(line: Seq<char>) -> Result<(T0::V, T1::V, T2::V, T3::V, T4::V, T5::V), ParseError> {
        let words = tokens(line);
        if words.len() < 6 {
            Err(ParseError::MissingSlot { slot: words.len() as usize })
        } else if slot_value::<T0>(words, 0) is Err {
            Err(slot_value::<T0>(words, 0)->Err_0)
        } else if slot_value::<T1>(words, 1) is Err {
            Err(slot_value::<T1>(words, 1)->Err_0)
        } else if slot_value::<T2>(words, 2) is Err {
            Err(slot_value::<T2>(words, 2)->Err_0)
        } else if slot_value::<T3>(words, 3) is Err {
            Err(slot_value::<T3>(words, 3)->Err_0)
        } else if slot_value::<T4>(words, 4) is Err {
            Err(slot_value::<T4>(words, 4)->Err_0)
        } else if slot_value::<T5>(words, 5) is Err {
            Err(slot_value::<T5>(words, 5)->Err_0)
        } else {
            Ok((
                slot_value::<T0>(words, 0)->Ok_0,
                slot_value::<T1>(words, 1)->Ok_0,
                slot_value::<T2>(words, 2)->Ok_0,
                slot_value::<T3>(words, 3)->Ok_0,
                slot_value::<T4>(words, 4)->Ok_0,
                slot_value::<T5>(words, 5)->Ok_0,
            ))
        }
    }

    fn parse_line(buffer: &str) -> (r: Result<(T0, T1, T2, T3, T4, T5), ParseError>) {
        let words = split_whitespace(buffer);
        if words.len() < 6 {
            return Err(ParseError::MissingSlot { slot: words.len() });
        }
        let v0 = match convert_slot::<T0>(&words, 0) {
            Ok(v) => v,
            Err(e) => return Err(e),
        };
        let v1 = match convert_slot::<T1>(&words, 1) {
            Ok(v) => v,
            Err(e) => return Err(e),
        };
        let v2 = match convert_slot::<T2>(&words, 2) {
            Ok(v) => v,
            Err(e) => return Err(e),
        };
        let v3 = match convert_slot::<T3>(&words, 3) {
            Ok(v) => v,
            Err(e) => return Err(e),
        };
        let v4 = match convert_slot::<T4>(&words, 4) {
            Ok(v) => v,
            Err(e) => return Err(e),
        };
        let v5 = match convert_slot::<T5>(&words, 5) {
            Ok(v) => v,
            Err(e) => return Err(e),
        };
        Ok((v0, v1, v2, v3, v4, v5))
    }
}

impl<T0: FromToken, T1: FromToken, T2: FromToken, T3: FromToken, T4: FromToken, T5: FromToken, T6: FromToken> InlineTestCase for (T0, T1, T2, T3, T4, T5, T6) {
    /// A tuple of seven takes the first seven tokens of the line, in order.
    /// Tokens after them are left aside. A line with fewer tokens fails on
    /// the first slot that stays empty, whatever its tokens hold.
    open spec fn line_value(line: Seq<char>) -> Result<(T0::V, T1::V, T2::V, T3::V, T4::V, T5::V, T6::V), ParseError> {
        let words = tokens(line);
        if words.len() < 7 {
            Err(ParseError::MissingSlot { slot: words.len() as usize })
        } else if slot_value::<T0>(words, 0) is Err {
            Err(slot_value::<T0>(words, 0)->Err_0)
        } else if slot_value::<T1>(words, 1) is Err {
            Err(slot_value::<T1>(words, 1)->Err_0)
        } else if slot_value::<T2>(words, 2) is Err {
            Err(slot_value::<T2>(words, 2)->Err_0)
        } else if slot_value::<T3>(words, 3) is Err {
            Err(slot_value::<T3>(words, 3)->Err_0)
        } else if slot_value::<T4>(words, 4) is Err {
            Err(slot_value::<T4>(words, 4)->Err_0)
        } else if slot_value::<T5>(words, 5) is Err {
            Err(slot_value::<T5>(words, 5)->Err_0)
        } else if slot_value::<T6>(words, 6) is Err {
            Err(slot_value::<T6>(words, 6)->Err_0)
        } else {
            Ok((
                slot_value::<T0>(words, 0)->Ok_0,
                slot_value::<T1>(words, 1)->Ok_0,
                slot_value::<T2>(words, 2)->Ok_0,
                slot_value::<T3>(words, 3)->Ok_0,
                slot_value::<T4>(words, 4)->Ok_0,
                slot_value::<T5>(words, 5)->Ok_0,
                slot_value::<T6>(words, 6)->Ok_0,
            ))
        }
    }

    fn parse_line(buffer: &str) -> (r: Result<(T0, T1, T2, T3, T4, T5, T6), ParseError>) {
        let words = split_whitespace(buffer);
        if words.len() < 7 {
            return Err(ParseError::MissingSlot { slot: words.len() });
        }
        let v0 = match convert_slot::<T0>(&words, 0) {
            Ok(v) => v,
            Err(e) => return Err(e),
        };
        let v1 = match convert_slot::<T1>(&words, 1) {
            Ok(v) => v,
            Err(e) => return Err(e),
        };
        let v2 = match convert_slot::<T2>(&words, 2) {
            Ok(v) => v,
            Err(e) => return Err(e),
        };
        let v3 = match convert_slot::<T3>(&words, 3) {
            Ok(v) => v,
            Err(e) => return Err(e),
        };
        let v4 = match convert_slot::<T4>(&words, 4) {
            Ok(v) => v,
            Err(e) => return Err(e),
        };
        let v5 = match convert_slot::<T5>(&words, 5) {
            Ok(v) => v,
            Err(e) => return Err(e),
        };
        let v6 = match convert_slot::<T6>(&words, 6) {
            Ok(v) => v,
            Err(e) => return Err(e),
        };
        Ok((v0, v1, v2, v3, v4, v5, v6))
    }
}

impl<T0: FromToken, T1: FromToken, T2: FromToken, T3: FromToken, T4: FromToken, T5: FromToken, T6: FromToken, T7: FromToken> InlineTestCase for (T0, T1, T2, T3, T4, T5, T6, T7) {
    /// A tuple of eight takes the first eight tokens of the line, in order.
    /// Tokens after them are left aside. A line with fewer tokens fails on
    /// the first slot that stays empty, whatever its tokens hold.
    open spec fn line_value(line: Seq<char>) -> Result<(T0::V, T1::V, T2::V, T3::V, T4::V, T5::V, T6::V, T7::V), ParseError> {
        let words = tokens(line);
        if words.len() < 8 {
            Err(ParseError::MissingSlot { slot: words.len() as usize })
        } else if slot_value::<T0>(words, 0) is Err {
            Err(slot_value::<T0>(words, 0)->Err_0)
        } else if slot_value::<T1>(words, 1) is Err {
            Err(slot_value::<T1>(words, 1)->Err_0)
        } else if slot_value::<T2>(words, 2) is Err {
            Err(slot_value::<T2>(words, 2)->Err_0)
        } else if slot_value::<T3>(words, 3) is Err {
            Err(slot_value::<T3>(words, 3)->Err_0)
        } else if slot_value::<T4>(words, 4) is Err {
            Err(slot_value::<T4>(words, 4)->Err_0)
        } else if slot_value::<T5>(words, 5) is Err {
            Err(slot_value::<T5>(words, 5)->Err_0)
        } else if slot_value::<T6>(words, 6) is Err {
            Err(slot_value::<T6>(words, 6)->Err_0)
        } else if slot_value::<T7>(words, 7) is Err {
            Err(slot_value::<T7>(words, 7)->Err_0)
        } else {
            Ok((
                slot_value::<T0>(words, 0)->Ok_0,
                slot_value::<T1>(words, 1)->Ok_0,
                slot_value::<T2>(words, 2)->Ok_0,
                slot_value::<T3>(words, 3)->Ok_0,
                slot_value::<T4>(words, 4)->Ok_0,
                slot_value::<T5>(words, 5)->Ok_0,
                slot_value::<T6>(words, 6)->Ok_0,
                slot_value::<T7>(words, 7)->Ok_0,
            ))
        }
    }

    fn parse_line(buffer: &str) -> (r: Result<(T0, T1, T2, T3, T4, T5, T6, T7), ParseError>) {
        let words = split_whitespace(buffer);
        if words.len() < 8 {
            return Err(ParseError::MissingSlot { slot: words.len() });
        }
        let v0 = match convert_slot::<T0>(&words, 0) {
            Ok(v) => v,
            Err(e) => return Err(e),
        };
        let v1 = match convert_slot::<T1>(&words, 1) {
            Ok(v) => v,
            Err(e) => return Err(e),
        };
        let v2 = match convert_slot::<T2>(&words, 2) {
            Ok(v) => v,
            Err(e) => return Err(e),
        };
        let v3 = match convert_slot::<T3>(&words, 3) {
            Ok(v) => v,
            Err(e) => return Err(e),
        };
        let v4 = match convert_slot::<T4>(&words, 4) {
            Ok(v) => v,
            Err(e) => return Err(e),
        };
        let v5 = match convert_slot::<T5>(&words, 5) {
            Ok(v) => v,
            Err(e) => return Err(e),
        };
        let v6 = match convert_slot::<T6>(&words, 6) {
            Ok(v) => v,
            Err(e) => return Err(e),
        };
        let v7 = match convert_slot::<T7>(&words, 7) {
            Ok(v) => v,
            Err(e) => return Err(e),
        };
        Ok((v0, v1, v2, v3, v4, v5, v6, v7))
    }
}

impl<T0: FromToken, T1: FromToken, T2: FromToken, T3: FromToken, T4: FromToken, T5: FromToken, T6: FromToken, T7: FromToken, T8: FromToken> InlineTestCase for (T0, T1, T2, T3, T4, T5, T6, T7, T8) {
    /// A tuple of nine takes the first nine tokens of the line, in order.
    /// Tokens after them are left aside. A line with fewer tokens fails on
    /// the first slot that stays empty, whatever its tokens hold.
    open spec fn line_value(line: Seq<char>) -> Result<(T0::V, T1::V, T2::V, T3::V, T4::V, T5::V, T6::V, T7::V, T8::V), ParseError> {
        let words = tokens(line);
        if words.len() < 9 {
            Err(ParseError::MissingSlot { slot: words.len() as usize })
        } else if slot_value::<T0>(words, 0) is Err {
            Err(slot_value::<T0>(words, 0)->Err_0)
        } else if slot_value::<T1>(words, 1) is Err {
            Err(slot_value::<T1>(words, 1)->Err_0)
        } else if slot_value::<T2>(words, 2) is Err {
            Err(slot_value::<T2>(words, 2)->Err_0)
        } else if slot_value::<T3>(words, 3) is Err {
            Err(slot_value::<T3>(words, 3)->Err_0)
        } else if slot_value::<T4>(words, 4) is Err {
            Err(slot_value::<T4>(words, 4)->Err_0)
        } else if slot_value::<T5>(words, 5) is Err {
            Err(slot_value::<T5>(words, 5)->Err_0)
        } else if slot_value::<T6>(words, 6) is Err {
            Err(slot_value::<T6>(words, 6)->Err_0)
        } else if slot_value::<T7>(words, 7) is Err {
            Err(slot_value::<T7>(words, 7)->Err_0)
        } else if slot_value::<T8>(words, 8) is Err {
            Err(slot_value::<T8>(words, 8)->Err_0)
        } else {
            Ok((
                slot_value::<T0>(words, 0)->Ok_0,
                slot_value::<T1>(words, 1)->Ok_0,
                slot_value::<T2>(words, 2)->Ok_0,
                slot_value::<T3>(words, 3)->Ok_0,
                slot_value::<T4>(words, 4)->Ok_0,
                slot_value::<T5>(words, 5)->Ok_0,
                slot_value::<T6>(words, 6)->Ok_0,
                slot_value::<T7>(words, 7)->Ok_0,
                slot_value::<T8>(words, 8)->Ok_0,
            ))
        }
    }

    fn parse_line(buffer: &str) -> (r: Result<(T0, T1, T2, T3, T4, T5, T6, T7, T8), ParseError>) {
        let words = split_whitespace(buffer);
        if words.len() < 9 {
            return Err(ParseError::MissingSlot { slot: words.len() });
        }
        let v0 = match convert_slot::<T0>(&words, 0) {
            Ok(v) => v,
            Err(e) => return Err(e),
        };
        let v1 = match convert_slot::<T1>(&words, 1) {
            Ok(v) => v,
            Err(e) => return Err(e),
        };
        let v2 = match convert_slot::<T2>(&words, 2) {
            Ok(v) => v,
            Err(e) => return Err(e),
        };
        let v3 = match convert_slot::<T3>(&words, 3) {
            Ok(v) => v,
            Err(e) => return Err(e),
        };
        let v4 = match convert_slot::<T4>(&words, 4) {
            Ok(v) => v,
            Err(e) => return Err(e),
        };
        let v5 = match convert_slot::<T5>(&words, 5) {
            Ok(v) => v,
            Err(e) => return Err(e),
        };
        let v6 = match convert_slot::<T6>(&words, 6) {
            Ok(v) => v,
            Err(e) => return Err(e),
        };
        let v7 = match convert_slot::<T7>(&words, 7) {
            Ok(v) => v,
            Err(e) => return Err(e),
        };
        let v8 = match convert_slot::<T8>(&words, 8) {
            Ok(v) => v,
            Err(e) => return Err(e),
        };
        Ok((v0, v1, v2, v3, v4, v5, v6, v7, v8))
    }
}

impl<T0: FromToken, T1: FromToken, T2: FromToken, T3: FromToken, T4: FromToken, T5: FromToken, T6: FromToken, T7: FromToken, T8: FromToken, T9: FromToken> InlineTestCase for (T0, T1, T2, T3, T4, T5, T6, T7, T8, T9) {
    /// A tuple of ten takes the first ten tokens of the line, in order.
    /// Tokens after them are left aside. A line with fewer tokens fails on
    /// the first slot that stays empty, whatever its tokens hold.
    open spec fn line_value(line: Seq<char>) -> Result<(T0::V, T1::V, T2::V, T3::V, T4::V, T5::V, T6::V, T7::V, T8::V, T9::V), ParseError> {
        let words = tokens(line);
        if words.len() < 10 {
            Err(ParseError::MissingSlot { slot: words.len() as usize })
        } else if slot_value::<T0>(words, 0) is Err {
            Err(slot_value::<T0>(words, 0)->Err_0)
        } else if slot_value::<T1>(words, 1) is Err {
            Err(slot_value::<T1>(words, 1)->Err_0)
        } else if slot_value::<T2>(words, 2) is Err {
            Err(slot_value::<T2>(words, 2)->Err_0)
        } else if slot_value::<T3>(words, 3) is Err {
            Err(slot_value::<T3>(words, 3)->Err_0)
        } else if slot_value::<T4>(words, 4) is Err {
            Err(slot_value::<T4>(words, 4)->Err_0)
        } else if slot_value::<T5>(words, 5) is Err {
            Err(slot_value::<T5>(words, 5)->Err_0)
        } else if slot_value::<T6>(words, 6) is Err {
            Err(slot_value::<T6>(words, 6)->Err_0)
        } else if slot_value::<T7>(words, 7) is Err {
            Err(slot_value::<T7>(words, 7)->Err_0)
        } else if slot_value::<T8>(words, 8) is Err {
            Err(slot_value::<T8>(words, 8)->Err_0)
        } else if slot_value::<T9>(words, 9) is Err {
            Err(slot_value::<T9>(words, 9)->Err_0)
        } else {
            Ok((
                slot_value::<T0>(words, 0)->Ok_0,
                slot_value::<T1>(words, 1)->Ok_0,
                slot_value::<T2>(words, 2)->Ok_0,
                slot_value::<T3>(words, 3)->Ok_0,
                slot_value::<T4>(words, 4)->Ok_0,
                slot_value::<T5>(words, 5)->Ok_0,
                slot_value::<T6>(words, 6)->Ok_0,
                slot_value::<T7>(words, 7)->Ok_0,
                slot_value::<T8>(words, 8)->Ok_0,
                slot_value::<T9>(words, 9)->Ok_0,
            ))
        }
    }

    fn parse_line(buffer: &str) -> (r: Result<(T0, T1, T2, T3, T4, T5, T6, T7, T8, T9), ParseError>) {
        let words = split_whitespace(buffer);
        if words.len() < 10 {
            return Err(ParseError::MissingSlot { slot: words.len() });
        }
        let v0 = match convert_slot::<T0>(&words, 0) {
            Ok(v) => v,
            Err(e) => return Err(e),
        };
        let v1 = match convert_slot::<T1>(&words, 1) {
            Ok(v) => v,
            Err(e) => return Err(e),
        };
        let v2 = match convert_slot::<T2>(&words, 2) {
            Ok(v) => v,
            Err(e) => return Err(e),
        };
        let v3 = match convert_slot::<T3>(&words, 3) {
            Ok(v) => v,
            Err(e) => return Err(e),
        };
        let v4 = match convert_slot::<T4>(&words, 4) {
            Ok(v) => v,
            Err(e) => return Err(e),
        };
        let v5 = match convert_slot::<T5>(&words, 5) {
            Ok(v) => v,
            Err(e) => return Err(e),
        };
        let v6 = match convert_slot::<T6>(&words, 6) {
            Ok(v) => v,
            Err(e) => return Err(e),
        };
        let v7 = match convert_slot::<T7>(&words, 7) {
            Ok(v) => v,
            Err(e) => return Err(e),
        };
        let v8 = match convert_slot::<T8>(&words, 8) {
            Ok(v) => v,
            Err(e) => return Err(e),
        };
        let v9 = match convert_slot::<T9>(&words, 9) {
            Ok(v) => v,
            Err(e) => return Err(e),
        };
        Ok((v0, v1, v2, v3, v4, v5, v6, v7, v8, v9))
    }
}

} // verus!
