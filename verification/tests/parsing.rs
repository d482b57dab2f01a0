use validated_forms::numparse::parse_bool;
use validated_forms::numparse::parse_i128;
use validated_forms::numparse::parse_i16;
use validated_forms::numparse::parse_i32;
use validated_forms::numparse::parse_i64;
use validated_forms::numparse::parse_i8;
use validated_forms::numparse::parse_isize;
use validated_forms::numparse::parse_u128;
use validated_forms::numparse::parse_u16;
use validated_forms::numparse::parse_u32;
use validated_forms::numparse::parse_u64;
use validated_forms::numparse::parse_u8;
use validated_forms::numparse::parse_usize;
use validated_forms::text::decode_text;

#[test]
fn i64_literals() {
    assert_eq!(parse_i64("0"), Some(0));
    assert_eq!(parse_i64("42"), Some(42));
    assert_eq!(parse_i64("+42"), Some(42));
    assert_eq!(parse_i64("-42"), Some(-42));
    assert_eq!(parse_i64("007"), Some(7));
    assert_eq!(parse_i64("9223372036854775807"), Some(i64::MAX));
    assert_eq!(parse_i64("-9223372036854775808"), Some(i64::MIN));
}

#[test]
fn i64_rejects() {
    assert_eq!(parse_i64(""), None);
    assert_eq!(parse_i64("-"), None);
    assert_eq!(parse_i64("+"), None);
    assert_eq!(parse_i64("abc"), None);
    assert_eq!(parse_i64("12a"), None);
    assert_eq!(parse_i64(" 1"), None);
    assert_eq!(parse_i64("1 "), None);
    assert_eq!(parse_i64("--1"), None);
    assert_eq!(parse_i64("9223372036854775808"), None);
    assert_eq!(parse_i64("-9223372036854775809"), None);
}

#[test]
fn i32_bounds() {
    assert_eq!(parse_i32("2147483647"), Some(i32::MAX));
    assert_eq!(parse_i32("-2147483648"), Some(i32::MIN));
    assert_eq!(parse_i32("2147483648"), None);
    assert_eq!(parse_i32("-2147483649"), None);
}

#[test]
fn u64_literals() {
    assert_eq!(parse_u64("0"), Some(0));
    assert_eq!(parse_u64("+7"), Some(7));
    assert_eq!(parse_u64("18446744073709551615"), Some(u64::MAX));
    assert_eq!(parse_u64("18446744073709551616"), None);
    assert_eq!(parse_u64("-1"), None);
    assert_eq!(parse_u64("-0"), None);
}

#[test]
fn bool_literals() {
    assert_eq!(parse_bool("true"), Some(true));
    assert_eq!(parse_bool("false"), Some(false));
    assert_eq!(parse_bool("True"), None);
    assert_eq!(parse_bool("1"), None);
    assert_eq!(parse_bool(""), None);
}

#[test]
fn utf8_decoding_exact() {
    // A non-ASCII character: the decoded string differs from the raw bytes,
    // so a decoder that handed its input through unchanged would fail here.
    assert_eq!(decode_text(vec![0xc3, 0xa9]), Ok("\u{e9}".to_string()));
    assert_eq!(decode_text(vec![]), Ok(String::new()));
    assert_eq!(
        decode_text(vec![0xf0, 0x9f, 0x98, 0x80]),
        Ok("\u{1f600}".to_string())
    );
}

#[test]
fn utf8_invalid_offsets() {
    // A valid one-byte prefix, then an invalid lead.
    assert_eq!(decode_text(vec![0x61, 0xc0]), Err(1));
    // An overlong two-byte encoding of '/'.
    assert_eq!(decode_text(vec![0xc0, 0xaf]), Err(0));
    // A surrogate encoding.
    assert_eq!(decode_text(vec![0xed, 0xa0, 0x80]), Err(0));
    // A truncated three-byte sequence.
    assert_eq!(decode_text(vec![0xe2, 0x98]), Err(0));
    // A value beyond the scalar range.
    assert_eq!(decode_text(vec![0xf4, 0x90, 0x80, 0x80]), Err(0));
    // A lone continuation byte after two characters.
    assert_eq!(decode_text(vec![0x61, 0x62, 0x80]), Err(2));
}

#[test]
fn narrow_width_bounds() {
    assert_eq!(parse_i8("127"), Some(i8::MAX));
    assert_eq!(parse_i8("-128"), Some(i8::MIN));
    assert_eq!(parse_i8("128"), None);
    assert_eq!(parse_i8("-129"), None);
    assert_eq!(parse_i16("32767"), Some(i16::MAX));
    assert_eq!(parse_i16("-32768"), Some(i16::MIN));
    assert_eq!(parse_i16("32768"), None);
    assert_eq!(parse_u8("255"), Some(u8::MAX));
    assert_eq!(parse_u8("256"), None);
    assert_eq!(parse_u8("-1"), None);
    assert_eq!(parse_u16("65535"), Some(u16::MAX));
    assert_eq!(parse_u16("65536"), None);
    assert_eq!(parse_u32("4294967295"), Some(u32::MAX));
    assert_eq!(parse_u32("4294967296"), None);
}

#[test]
fn wide_width_bounds() {
    assert_eq!(
        parse_i128("170141183460469231731687303715884105727"),
        Some(i128::MAX)
    );
    assert_eq!(
        parse_i128("-170141183460469231731687303715884105728"),
        Some(i128::MIN)
    );
    assert_eq!(parse_i128("170141183460469231731687303715884105728"), None);
    assert_eq!(
        parse_u128("340282366920938463463374607431768211455"),
        Some(u128::MAX)
    );
    assert_eq!(parse_u128("340282366920938463463374607431768211456"), None);
    assert_eq!(parse_usize("4096"), Some(4096));
    assert_eq!(parse_isize("-4096"), Some(-4096));
}
