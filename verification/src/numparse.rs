//! Parsing of text field values into scalar types.
//!
//! The grammar is the one Rust's integer parsing accepts: an optional `+` or
//! `-` sign (no `-` for unsigned types) followed by one or more decimal
//! digits, with the value required to fit the target type; booleans are
//! exactly `true` or `false`. The specification functions here give the
//! accepted strings and their values exactly. Every integer width has a
//! parser; the narrow ones go through the 128-bit parse and a range check.

use vstd::prelude::*;
use vstd::string::StrSliceExecFns;

verus! {

/// True for the decimal digit characters.
pub open spec fn is_digit(c: char) -> bool {
    '0' <= c && c <= '9'
}

/// The numeric value of one decimal digit character.
pub open spec fn digit_value(c: char) -> int {
    (c as u32) - ('0' as u32)
}

/// True when every character of `s` is a decimal digit.
pub open spec fn all_digits(s: Seq<char>) -> bool {
    forall|i: int| 0 <= i < s.len() ==> is_digit(#[trigger] s[i])
}

/// The value of a digit string read in base ten.
pub open spec fn digits_value(s: Seq<char>) -> int
    decreases s.len(),
{
    if s.len() == 0 {
        0
    } else {
        digits_value(s.drop_last()) * 10 + digit_value(s.last())
    }
}

/// The mathematical value of an unsigned decimal literal: one or more
/// digits, optionally preceded by `+`.
pub open spec fn parse_uint_value(s: Seq<char>) -> Option<int> {
    let digits = if s.len() >= 1 && s[0] == '+' {
        s.subrange(1, s.len() as int)
    } else {
        s
    };
    if digits.len() >= 1 && all_digits(digits) {
        Some(digits_value(digits))
    } else {
        None
    }
}

/// The mathematical value of a signed decimal literal: one or more digits,
/// optionally preceded by `+` or `-`.
pub open spec fn parse_sint_value(s: Seq<char>) -> Option<int> {
    if s.len() >= 1 && s[0] == '-' {
        let digits = s.subrange(1, s.len() as int);
        if digits.len() >= 1 && all_digits(digits) {
            Some(-digits_value(digits))
        } else {
            None
        }
    } else {
        parse_uint_value(s)
    }
}

/// The `i64` a string parses to, if any: a signed decimal literal whose
/// value fits the type.
pub open spec fn parse_i64_spec(s: Seq<char>) -> Option<i64> {
    match parse_sint_value(s) {
        Some(v) => if i64::MIN <= v <= i64::MAX {
            Some(v as i64)
        } else {
            None
        },
        None => None,
    }
}

/// The `i32` a string parses to, if any.
pub open spec fn parse_i32_spec(s: Seq<char>) -> Option<i32> {
    match parse_sint_value(s) {
        Some(v) => if i32::MIN <= v <= i32::MAX {
            Some(v as i32)
        } else {
            None
        },
        None => None,
    }
}

/// The `u64` a string parses to, if any: an unsigned decimal literal whose
/// value fits the type.
pub open spec fn parse_u64_spec(s: Seq<char>) -> Option<u64> {
    match parse_uint_value(s) {
        Some(v) => if v <= u64::MAX {
            Some(v as u64)
        } else {
            None
        },
        None => None,
    }
}

/// The `bool` a string parses to, if any: exactly `true` or `false`.
pub open spec fn parse_bool_spec(s: Seq<char>) -> Option<bool> {
    if s == "true"@ {
        Some(true)
    } else if s == "false"@ {
        Some(false)
    } else {
        None
    }
}

// An unsigned literal's value is never negative.
proof fn lemma_parse_uint_nonneg(s: Seq<char>)
    ensures
        parse_uint_value(s) matches Some(v) ==> v >= 0,
{
    let digits = if s.len() >= 1 && s[0] == '+' {
        s.subrange(1, s.len() as int)
    } else {
        s
    };
    if digits.len() >= 1 && all_digits(digits) {
        lemma_digits_value_nonneg(digits);
    }
}

// The value of a digit string is never negative.
proof fn lemma_digits_value_nonneg(s: Seq<char>)
    requires
        all_digits(s),
    ensures
        digits_value(s) >= 0,
    decreases s.len(),
{
    if s.len() > 0 {
        assert(all_digits(s.drop_last()));
        lemma_digits_value_nonneg(s.drop_last());
    }
}

// Reading further digits never decreases the value: every prefix of a digit
// string has a value no greater than the whole.
proof fn lemma_digits_value_prefix(s: Seq<char>, k: int)
    requires
        all_digits(s),
        0 <= k <= s.len(),
    ensures
        digits_value(s.subrange(0, k)) <= digits_value(s),
    decreases s.len(),
{
    lemma_digits_value_nonneg(s);
    if k < s.len() {
        let t = s.drop_last();
        assert(all_digits(t));
        assert(s.subrange(0, k) =~= t.subrange(0, k));
        lemma_digits_value_prefix(t, k);
        lemma_digits_value_nonneg(t);
    } else {
        assert(s.subrange(0, k) =~= s);
    }
}

// Parses the digits of `s` from character position `start` to the end,
// producing their value when they are one or more digits with value at most
// `limit`.
fn parse_digits(s: &str, start: usize, limit: u128) -> (r: Option<u128>)
    requires
        start <= s@.len(),
    ensures
        ({
            let digits = s@.subrange(start as int, s@.len() as int);
            match r {
                Some(v) => digits.len() >= 1 && all_digits(digits) && digits_value(digits)
                    == v && v <= limit,
                None => !(digits.len() >= 1 && all_digits(digits) && digits_value(digits)
                    <= limit),
            }
        }),
{
    let ghost digits = s@.subrange(start as int, s@.len() as int);
    let n = s.unicode_len();
    if start == n {
        return None;
    }
    let mut acc: u128 = 0;
    let mut j: usize = start;
    while j < n
        invariant
            start <= j <= n,
            n == s@.len(),
            digits == s@.subrange(start as int, s@.len() as int),
            all_digits(s@.subrange(start as int, j as int)),
            acc == digits_value(s@.subrange(start as int, j as int)),
            acc <= limit,
        decreases n - j,
    {
        let c = s.get_char(j);
        if !('0' <= c && c <= '9') {
            assert(!is_digit(digits[j - start]));
            return None;
        }
        let d: u128 = ((c as u32) - ('0' as u32)) as u128;
        proof {
            let prefix = s@.subrange(start as int, j as int);
            let extended = s@.subrange(start as int, j as int + 1);
            assert(extended.drop_last() =~= prefix);
            assert(extended.last() == s@[j as int]);
            assert(digits_value(extended) == digits_value(prefix) * 10 + digit_value(s@[j as int]));
        }
        // The next accumulator value would exceed the limit; checked by
        // division so the multiplication itself cannot overflow.
        if d > limit || acc > (limit - d) / 10 {
            proof {
                assert(acc * 10 + d > limit) by {
                    if d <= limit {
                        let q = (limit - d) / 10;
                        assert((limit - d) == 10 * q + (limit - d) % 10);
                        assert((limit - d) % 10 < 10);
                        assert(acc >= q + 1);
                        assert(acc * 10 >= (q + 1) * 10);
                    }
                };
                let extended = s@.subrange(start as int, j as int + 1);
                if all_digits(digits) && digits_value(digits) <= limit {
                    assert(extended =~= digits.subrange(0, j - start + 1));
                    lemma_digits_value_prefix(digits, j - start + 1);
                }
            }
            return None;
        }
        acc = acc * 10 + d;
        j = j + 1;
    }
    proof {
        assert(s@.subrange(start as int, j as int) =~= digits);
    }
    Some(acc)
}

/// Parses a string as an `i64`, accepting exactly the signed decimal
/// literals whose value fits the type.
pub fn parse_i64(s: &str) -> (r: Option<i64>)
    ensures
        r == parse_i64_spec(s@),
{
    let n = s.unicode_len();
    if n == 0 {
        return None;
    }
    let c0 = s.get_char(0);
    if c0 == '-' {
        match parse_digits(s, 1, 9223372036854775808u128) {
            Some(v) => {
                if v == 9223372036854775808u128 {
                    Some(i64::MIN)
                } else {
                    Some(-(v as i64))
                }
            },
            None => None,
        }
    } else {
        let start: usize = if c0 == '+' {
            1
        } else {
            0
        };
        proof {
            if c0 != '+' {
                assert(s@.subrange(0, s@.len() as int) =~= s@);
            }
        }
        match parse_digits(s, start, 9223372036854775807u128) {
            Some(v) => Some(v as i64),
            None => None,
        }
    }
}

/// Parses a string as an `i32`, accepting exactly the signed decimal
/// literals whose value fits the type.
pub fn parse_i32(s: &str) -> (r: Option<i32>)
    ensures
        r == parse_i32_spec(s@),
{
    let n = s.unicode_len();
    if n == 0 {
        return None;
    }
    let c0 = s.get_char(0);
    if c0 == '-' {
        match parse_digits(s, 1, 2147483648u128) {
            Some(v) => {
                if v == 2147483648u128 {
                    Some(i32::MIN)
                } else {
                    Some(-(v as i32))
                }
            },
            None => None,
        }
    } else {
        let start: usize = if c0 == '+' {
            1
        } else {
            0
        };
        proof {
            if c0 != '+' {
                assert(s@.subrange(0, s@.len() as int) =~= s@);
            }
        }
        match parse_digits(s, start, 2147483647u128) {
            Some(v) => Some(v as i32),
            None => None,
        }
    }
}

/// Parses a string as a `u64`, accepting exactly the unsigned decimal
/// literals whose value fits the type.
pub fn parse_u64(s: &str) -> (r: Option<u64>)
    ensures
        r == parse_u64_spec(s@),
{
    let n = s.unicode_len();
    if n == 0 {
        return None;
    }
    let c0 = s.get_char(0);
    let start: usize = if c0 == '+' {
        1
    } else {
        0
    };
    if c0 == '-' {
        return None;
    }
    proof {
        if c0 != '+' {
            assert(s@.subrange(0, s@.len() as int) =~= s@);
        }
    }
    match parse_digits(s, start, 18446744073709551615u128) {
        Some(v) => Some(v as u64),
        None => None,
    }
}

/// Parses a string as a `bool`, accepting exactly `true` and `false`.
pub fn parse_bool(s: &str) -> (r: Option<bool>)
    ensures
        r == parse_bool_spec(s@),
{
    proof {
        reveal_strlit("true");
        reveal_strlit("false");
    }
    let n = s.unicode_len();
    if n == 4 && s.get_char(0) == 't' && s.get_char(1) == 'r' && s.get_char(2) == 'u'
        && s.get_char(3) == 'e' {
        proof {
            assert(s@ =~= "true"@);
        }
        Some(true)
    } else if n == 5 && s.get_char(0) == 'f' && s.get_char(1) == 'a' && s.get_char(2) == 'l'
        && s.get_char(3) == 's' && s.get_char(4) == 'e' {
        proof {
            assert(s@ =~= "false"@);
        }
        Some(false)
    } else {
        proof {
            if s@ == "true"@ {
                assert(s@.len() == 4);
                assert(s@[0] == 't' && s@[1] == 'r' && s@[2] == 'u' && s@[3] == 'e');
            }
            if s@ == "false"@ {
                assert(s@.len() == 5);
            }
        }
        None
    }
}


/// The `i128` a string parses to, if any.
pub open spec fn parse_i128_spec(s: Seq<char>) -> Option<i128> {
    match parse_sint_value(s) {
        Some(v) => if i128::MIN <= v <= i128::MAX {
            Some(v as i128)
        } else {
            None
        },
        None => None,
    }
}

/// The `u128` a string parses to, if any.
pub open spec fn parse_u128_spec(s: Seq<char>) -> Option<u128> {
    match parse_uint_value(s) {
        Some(v) => if v <= u128::MAX {
            Some(v as u128)
        } else {
            None
        },
        None => None,
    }
}

/// The `i8` a string parses to, if any.
pub open spec fn parse_i8_spec(s: Seq<char>) -> Option<i8> {
    match parse_sint_value(s) {
        Some(v) => if i8::MIN <= v <= i8::MAX {
            Some(v as i8)
        } else {
            None
        },
        None => None,
    }
}

/// The `i16` a string parses to, if any.
pub open spec fn parse_i16_spec(s: Seq<char>) -> Option<i16> {
    match parse_sint_value(s) {
        Some(v) => if i16::MIN <= v <= i16::MAX {
            Some(v as i16)
        } else {
            None
        },
        None => None,
    }
}

/// The `isize` a string parses to, if any.
pub open spec fn parse_isize_spec(s: Seq<char>) -> Option<isize> {
    match parse_sint_value(s) {
        Some(v) => if isize::MIN <= v <= isize::MAX {
            Some(v as isize)
        } else {
            None
        },
        None => None,
    }
}

/// The `u8` a string parses to, if any.
pub open spec fn parse_u8_spec(s: Seq<char>) -> Option<u8> {
    match parse_uint_value(s) {
        Some(v) => if v <= u8::MAX {
            Some(v as u8)
        } else {
            None
        },
        None => None,
    }
}

/// The `u16` a string parses to, if any.
pub open spec fn parse_u16_spec(s: Seq<char>) -> Option<u16> {
    match parse_uint_value(s) {
        Some(v) => if v <= u16::MAX {
            Some(v as u16)
        } else {
            None
        },
        None => None,
    }
}

/// The `u32` a string parses to, if any.
pub open spec fn parse_u32_spec(s: Seq<char>) -> Option<u32> {
    match parse_uint_value(s) {
        Some(v) => if v <= u32::MAX {
            Some(v as u32)
        } else {
            None
        },
        None => None,
    }
}

/// The `usize` a string parses to, if any.
pub open spec fn parse_usize_spec(s: Seq<char>) -> Option<usize> {
    match parse_uint_value(s) {
        Some(v) => if v <= usize::MAX {
            Some(v as usize)
        } else {
            None
        },
        None => None,
    }
}

/// Parses a string as an `i128`, accepting exactly the signed decimal
/// literals whose value fits the type.
pub fn parse_i128(s: &str) -> (r: Option<i128>)
    ensures
        r == parse_i128_spec(s@),
{
    let n = s.unicode_len();
    if n == 0 {
        return None;
    }
    let c0 = s.get_char(0);
    if c0 == '-' {
        match parse_digits(s, 1, 170141183460469231731687303715884105728u128) {
            Some(v) => {
                if v == 170141183460469231731687303715884105728u128 {
                    Some(i128::MIN)
                } else {
                    Some(-(v as i128))
                }
            },
            None => None,
        }
    } else {
        let start: usize = if c0 == '+' {
            1
        } else {
            0
        };
        proof {
            if c0 != '+' {
                assert(s@.subrange(0, s@.len() as int) =~= s@);
            }
        }
        match parse_digits(s, start, 170141183460469231731687303715884105727u128) {
            Some(v) => Some(v as i128),
            None => None,
        }
    }
}

/// Parses a string as a `u128`, accepting exactly the unsigned decimal
/// literals whose value fits the type.
pub fn parse_u128(s: &str) -> (r: Option<u128>)
    ensures
        r == parse_u128_spec(s@),
{
    let n = s.unicode_len();
    if n == 0 {
        return None;
    }
    let c0 = s.get_char(0);
    let start: usize = if c0 == '+' {
        1
    } else {
        0
    };
    if c0 == '-' {
        return None;
    }
    proof {
        if c0 != '+' {
            assert(s@.subrange(0, s@.len() as int) =~= s@);
        }
    }
    match parse_digits(s, start, 340282366920938463463374607431768211455u128) {
        Some(v) => Some(v),
        None => None,
    }
}

/// Parses a string as an `i8`: the 128-bit parse with a range check.
pub fn parse_i8(s: &str) -> (r: Option<i8>)
    ensures
        r == parse_i8_spec(s@),
{
    match parse_i128(s) {
        Some(v) => if -128 <= v && v <= 127 {
            Some(v as i8)
        } else {
            None
        },
        None => None,
    }
}

/// Parses a string as an `i16`: the 128-bit parse with a range check.
pub fn parse_i16(s: &str) -> (r: Option<i16>)
    ensures
        r == parse_i16_spec(s@),
{
    match parse_i128(s) {
        Some(v) => if -32768 <= v && v <= 32767 {
            Some(v as i16)
        } else {
            None
        },
        None => None,
    }
}

/// Parses a string as an `isize`: the 128-bit parse with a range check.
pub fn parse_isize(s: &str) -> (r: Option<isize>)
    ensures
        r == parse_isize_spec(s@),
{
    match parse_i128(s) {
        Some(v) => if isize::MIN as i128 <= v && v <= isize::MAX as i128 {
            Some(v as isize)
        } else {
            None
        },
        None => None,
    }
}

/// Parses a string as a `u8`: the 128-bit parse with a range check.
pub fn parse_u8(s: &str) -> (r: Option<u8>)
    ensures
        r == parse_u8_spec(s@),
{
    proof {
        lemma_parse_uint_nonneg(s@);
    }
    match parse_u128(s) {
        Some(v) => if v <= 255 {
            Some(v as u8)
        } else {
            None
        },
        None => None,
    }
}

/// Parses a string as a `u16`: the 128-bit parse with a range check.
pub fn parse_u16(s: &str) -> (r: Option<u16>)
    ensures
        r == parse_u16_spec(s@),
{
    proof {
        lemma_parse_uint_nonneg(s@);
    }
    match parse_u128(s) {
        Some(v) => if v <= 65535 {
            Some(v as u16)
        } else {
            None
        },
        None => None,
    }
}

/// Parses a string as a `u32`: the 128-bit parse with a range check.
pub fn parse_u32(s: &str) -> (r: Option<u32>)
    ensures
        r == parse_u32_spec(s@),
{
    proof {
        lemma_parse_uint_nonneg(s@);
    }
    match parse_u128(s) {
        Some(v) => if v <= 4294967295u128 {
            Some(v as u32)
        } else {
            None
        },
        None => None,
    }
}

/// Parses a string as a `usize`: the 128-bit parse with a range check.
pub fn parse_usize(s: &str) -> (r: Option<usize>)
    ensures
        r == parse_usize_spec(s@),
{
    proof {
        lemma_parse_uint_nonneg(s@);
    }
    match parse_u128(s) {
        Some(v) => if v <= usize::MAX as u128 {
            Some(v as usize)
        } else {
            None
        },
        None => None,
    }
}

} // verus!
