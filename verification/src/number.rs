//! Decimal integers as text: what a token denotes, how it is read, and the
//! canonical text of a value.

use crate::error::ConversionError;
use crate::text::to_chars;
use vstd::prelude::*;
use vstd::string::StringExecFns;

verus! {

/// Whether `c` is one of the digits `0` to `9`.
pub open spec fn is_digit(c: char) -> bool {
    '0' <= c <= '9'
}

/// The value of the digit `c`.
pub open spec fn digit_value(c: char) -> int {
    c as u32 - '0' as u32
}

/// The digit whose value is `d`.
pub open spec fn digit_char(d: int) -> char {
    seq!['0', '1', '2', '3', '4', '5', '6', '7', '8', '9'][d]
}

/// Whether `s` consists of digits only.
pub open spec fn all_digits(s: Seq<char>) -> bool {
    forall|i: int| 0 <= i < s.len() ==> is_digit(#[trigger] s[i])
}

/// The number that the digits `s` denote in base ten.
pub open spec fn digits_value(s: Seq<char>) -> nat
    decreases s.len(),
{
    if s.len() == 0 {
        0
    } else {
        (10 * digits_value(s.drop_last()) + digit_value(s.last())) as nat
    }
}

/// What the token `s` denotes as an integer between `min` and `max`: an
/// optional sign, `-` only where `min` is negative, then at least one digit.
pub open spec fn integer(s: Seq<char>, min: int, max: int) -> Result<int, ConversionError> {
    if s.len() == 0 {
        Err(ConversionError::Empty)
    } else {
        let negative = s[0] == '-' && min < 0;
        let digits = if s[0] == '+' || negative {
            s.skip(1)
        } else {
            s
        };
        if digits.len() == 0 || !all_digits(digits) {
            Err(ConversionError::InvalidDigit)
        } else if negative {
            if -digits_value(digits) < min {
                Err(ConversionError::NegOverflow)
            } else {
                Ok(-digits_value(digits))
            }
        } else {
            if digits_value(digits) > max {
                Err(ConversionError::PosOverflow)
            } else {
                Ok(digits_value(digits) as int)
            }
        }
    }
}

/// The digits of `n` in base ten, without leading zeros.
pub open spec fn digits_of(n: nat) -> Seq<char>
    decreases n,
{
    if n < 10 {
        seq![digit_char(n as int)]
    } else {
        digits_of(n / 10).push(digit_char((n % 10) as int))
    }
}

/// The canonical text of the integer `v`: a `-` if it is negative, then its
/// digits without leading zeros.
pub open spec fn canonical(v: int) -> Seq<char> {
    if v < 0 {
        seq!['-'] + digits_of((-v) as nat)
    } else {
        digits_of(v as nat)
    }
}

/// Whether `s` is the canonical text of some integer: no `+`, no leading
/// zero but in `0` itself, and no `-0`.
pub open spec fn is_canonical(s: Seq<char>) -> bool {
    let digits = if s.len() > 0 && s[0] == '-' {
        s.skip(1)
    } else {
        s
    };
    &&& digits.len() > 0
    &&& all_digits(digits)
    &&& digits.len() > 1 ==> digits[0] != '0'
    &&& s[0] == '-' ==> digits[0] != '0'
}

/// A digit and its value determine each other.
pub proof fn lemma_digit_char(d: int)
    requires
        0 <= d < 10,
    ensures
        is_digit(digit_char(d)),
        digit_value(digit_char(d)) == d,
{
}

/// A digit is the digit of its value.
pub proof fn lemma_digit_value(c: char)
    requires
        is_digit(c),
    ensures
        0 <= digit_value(c) < 10,
        digit_char(digit_value(c)) == c,
{
}

/// Appending a digit multiplies the value by ten and adds the digit.
pub proof fn lemma_digits_value_push(s: Seq<char>, c: char)
    requires
        is_digit(c),
    ensures
        digits_value(s.push(c)) == 10 * digits_value(s) + digit_value(c),
{
    assert(s.push(c).drop_last() =~= s);
}

/// The digits before a position denote no more than all the digits.
pub proof fn lemma_digits_value_prefix(s: Seq<char>, k: int)
    requires
        0 <= k <= s.len(),
        all_digits(s),
    ensures
        digits_value(s.take(k)) <= digits_value(s),
    decreases s.len() - k,
{
    if k == s.len() {
        assert(s.take(k) =~= s);
    } else {
        let t = s.drop_last();
        assert(all_digits(t)) by {
            assert forall|i: int| 0 <= i < t.len() implies is_digit(#[trigger] t[i]) by {
                assert(t[i] == s[i]);
            }
        }
        lemma_digits_value_prefix(t, k);
        assert(t.take(k) =~= s.take(k));
        assert(is_digit(s[s.len() - 1]));
    }
}

/// The digits of a number are digits, start with no zero but for zero
/// itself, and denote the number.
pub proof fn lemma_digits_of(n: nat)
    ensures
        digits_of(n).len() > 0,
        all_digits(digits_of(n)),
        digits_value(digits_of(n)) == n,
        n > 0 ==> digits_of(n)[0] != '0',
        n == 0 ==> digits_of(n) == seq!['0'],
    decreases n,
{
    if n < 10 {
        lemma_digit_char(n as int);
        let s = seq![digit_char(n as int)];
        assert(s.drop_last() =~= Seq::<char>::empty());
        assert(digits_value(s.drop_last()) == 0);
    } else {
        lemma_digits_of(n / 10);
        lemma_digit_char((n % 10) as int);
        lemma_digits_value_push(digits_of(n / 10), digit_char((n % 10) as int));
    }
}

/// Digits without a leading zero are the digits of the number they denote.
pub proof fn lemma_digits_of_value(s: Seq<char>)
    requires
        s.len() > 0,
        all_digits(s),
        s.len() > 1 ==> s[0] != '0',
    ensures
        digits_of(digits_value(s)) == s,
    decreases s.len(),
{
    let t = s.drop_last();
    let c = s.last();
    assert(is_digit(c));
    lemma_digit_value(c);
    if s.len() == 1 {
        assert(t =~= Seq::<char>::empty());
        assert(digits_value(t) == 0);
        assert(digits_of(digits_value(s)) =~= s);
    } else {
        assert(all_digits(t)) by {
            assert forall|i: int| 0 <= i < t.len() implies is_digit(#[trigger] t[i]) by {
                assert(t[i] == s[i]);
            }
        }
        assert(t[0] == s[0]);
        lemma_digits_of_value(t);
        lemma_digits_value_prefix(t, 1);
        assert(t.take(1).drop_last() =~= Seq::<char>::empty());
        assert(digits_value(t.take(1).drop_last()) == 0);
        assert(t.take(1).last() == t[0]);
        assert(is_digit(t[0]));
        assert(digits_value(t) >= 1);
        let n = digits_value(s);
        assert(n == 10 * digits_value(t) + digit_value(c));
        assert(n / 10 == digits_value(t));
        assert(n % 10 == digit_value(c));
        assert(t.push(c) =~= s);
    }
}

/// The canonical text of a value between the bounds reads back as the value.
pub proof fn lemma_canonical_reads_back(v: int, min: int, max: int)
    requires
        min <= v <= max,
    ensures
        is_canonical(canonical(v)),
        integer(canonical(v), min, max) == Ok::<int, ConversionError>(v),
{
    if v < 0 {
        let d = digits_of((-v) as nat);
        lemma_digits_of((-v) as nat);
        assert(canonical(v).skip(1) =~= d);
        assert(canonical(v)[0] == '-');
    } else {
        let d = digits_of(v as nat);
        lemma_digits_of(v as nat);
        assert(is_digit(d[0]));
    }
}

/// A canonical token that reads as a value is the canonical text of that
/// value.
pub proof fn lemma_reads_canonical(s: Seq<char>, min: int, max: int)
    requires
        is_canonical(s),
        integer(s, min, max) is Ok,
    ensures
        canonical(integer(s, min, max)->Ok_0) == s,
{
    if s[0] == '-' {
        let d = s.skip(1);
        lemma_digits_of_value(d);
        lemma_digits_value_prefix(d, 1);
        assert(d.take(1).drop_last() =~= Seq::<char>::empty());
        assert(digits_value(d.take(1).drop_last()) == 0);
        assert(d.take(1).last() == d[0]);
        assert(is_digit(d[0]));
        assert(digits_value(d) >= 1);
        assert(seq!['-'] + d =~= s);
    } else {
        assert(is_digit(s[0]));
        lemma_digits_of_value(s);
    }
}

/// The sign and the size of what `integer` gives: whether the value is below
/// zero, and its distance from zero.
pub open spec fn sign_magnitude(r: Result<int, ConversionError>) -> Result<
    (bool, int),
    ConversionError,
> {
    match r {
        Ok(v) => Ok((v < 0, if v < 0 { -v } else { v })),
        Err(e) => Err(e),
    }
}

/// Reads `token` as an integer between `min` and `max`, and gives its sign
/// (`true` for a value below zero) and its magnitude.
#[verifier::loop_isolation(false)]
pub fn parse_integer(token: &str, min: i128, max: u128) -> (r: Result<(bool, u128), ConversionError>)
    requires
        min <= 0,
    ensures
        match r {
            Ok((negative, magnitude)) => sign_magnitude(integer(token@, min as int, max as int))
                == Ok::<(bool, int), ConversionError>((negative, magnitude as int)),
            Err(e) => integer(token@, min as int, max as int) == Err::<int, ConversionError>(e),
        },
{
    let chars = to_chars(token);
    let n = chars.len();
    if n == 0 {
        return Err(ConversionError::Empty);
    }
    let negative = chars[0] == '-' && min < 0;
    let start: usize = if chars[0] == '+' || negative {
        1
    } else {
        0
    };
    let ghost digits = chars@.skip(start as int);
    assert(chars@.skip(0) =~= chars@);
    if start == n {
        return Err(ConversionError::InvalidDigit);
    }
    let mut i: usize = start;
    while i < n
        invariant
            start <= i <= n,
            n == chars.len(),
            digits == chars@.skip(start as int),
            forall|j: int| 0 <= j < i - start ==> is_digit(#[trigger] digits[j]),
        decreases n - i,
    {
        let c = chars[i];
        if !('0' <= c && c <= '9') {
            assert(digits[i - start] == c);
            return Err(ConversionError::InvalidDigit);
        }
        assert(digits[i - start] == c);
        i += 1;
    }
    assert(all_digits(digits));
    let limit: u128 = if !negative {
        max
    } else if min == i128::MIN {
        0x8000_0000_0000_0000_0000_0000_0000_0000u128
    } else {
        (-min) as u128
    };
    let over = if negative {
        ConversionError::NegOverflow
    } else {
        ConversionError::PosOverflow
    };
    let mut acc: u128 = 0;
    i = start;
    assert(digits.take(0) =~= Seq::<char>::empty());
    while i < n
        invariant
            start <= i <= n,
            n == chars.len(),
            digits == chars@.skip(start as int),
            all_digits(digits),
            acc == digits_value(digits.take(i - start)),
            acc <= limit,
        decreases n - i,
    {
        let c = chars[i];
        proof {
            assert(digits[i - start] == c);
            assert(is_digit(c));
            assert(digits.take(i - start + 1) =~= digits.take(i - start).push(c));
            lemma_digits_value_push(digits.take(i - start), c);
            lemma_digits_value_prefix(digits, i - start + 1);
        }
        let d: u128 = (c as u32 - '0' as u32) as u128;
        let next = match acc.checked_mul(10) {
            Some(tens) => tens.checked_add(d),
            None => None,
        };
        match next {
            Some(value) => {
                if value > limit {
                    return Err(over);
                }
                acc = value;
            },
            None => {
                return Err(over);
            },
        }
        i += 1;
    }
    assert(digits.take(n - start) =~= digits);
    Ok((negative && acc > 0, acc))
}

/// The text of the digit `d`.
pub(crate) fn digit_text(d: u8) -> (s: &'static str)
    requires
        d < 10,
    ensures
        s@ == seq![digit_char(d as int)],
{
    proof {
        reveal_strlit("0");
        reveal_strlit("1");
        reveal_strlit("2");
        reveal_strlit("3");
        reveal_strlit("4");
        reveal_strlit("5");
        reveal_strlit("6");
        reveal_strlit("7");
        reveal_strlit("8");
        reveal_strlit("9");
    }
    let s = if d == 0 {
        "0"
    } else if d == 1 {
        "1"
    } else if d == 2 {
        "2"
    } else if d == 3 {
        "3"
    } else if d == 4 {
        "4"
    } else if d == 5 {
        "5"
    } else if d == 6 {
        "6"
    } else if d == 7 {
        "7"
    } else if d == 8 {
        "8"
    } else {
        "9"
    };
    assert(s@ =~= seq![digit_char(d as int)]);
    s
}

/// The digits of `n` in base ten, without leading zeros.
pub fn unsigned_text(n: u128) -> (s: String)
    ensures
        s@ == digits_of(n as nat),
    decreases n,
{
    if n < 10 {
        digit_text(n as u8).to_owned()
    } else {
        let mut s = unsigned_text(n / 10);
        s.append(digit_text((n % 10) as u8));
        assert(s@ =~= digits_of((n / 10) as nat).push(digit_char((n % 10) as int)));
        s
    }
}

/// The canonical text of `v`.
pub fn signed_text(v: i128) -> (s: String)
    ensures
        s@ == canonical(v as int),
{
    if v < 0 {
        let magnitude: u128 = if v == i128::MIN {
            0x8000_0000_0000_0000_0000_0000_0000_0000u128
        } else {
            (-v) as u128
        };
        proof {
            reveal_strlit("-");
        }
        let mut s = "-".to_owned();
        s.append(unsigned_text(magnitude).as_str());
        assert(s@ =~= seq!['-'] + digits_of((-v) as nat));
        s
    } else {
        unsigned_text(v as u128)
    }
}

} // verus!
