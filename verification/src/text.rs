//! UTF-8 validation and decoding of accumulated text-part bytes.
//!
//! A text part's bytes are decoded strictly: bytes that are not a valid
//! UTF-8 encoding fail the whole part, with the length of the longest valid
//! prefix reported; no lossy replacement ever happens. Validity and decoding
//! are specified by [`vstd::utf8::valid_utf8`] and
//! [`vstd::utf8::decode_utf8`].

use vstd::prelude::*;
use vstd::utf8::*;

verus! {

/// The length in bytes of the longest prefix of `bytes` that is a valid
/// UTF-8 encoding: scalars are read greedily from the front until a
/// malformed one stops the scan.
pub open spec fn utf8_valid_prefix_len(bytes: Seq<u8>) -> int
    decreases bytes.len(),
{
    if bytes.len() == 0 {
        0
    } else if valid_first_scalar(bytes) && 1 <= length_of_first_scalar(bytes) <= bytes.len() {
        length_of_first_scalar(bytes) + utf8_valid_prefix_len(
            bytes.skip(length_of_first_scalar(bytes)),
        )
    } else {
        0
    }
}

// Accepting a one-byte encoding: any byte up to 0x7f stands alone.
proof fn lemma_accept_width_1(s: Seq<u8>, b0: u8)
    requires
        s.len() >= 1,
        s[0] == b0,
        b0 <= 0x7f,
    ensures
        valid_first_scalar(s),
        length_of_first_scalar(s) == 1,
{
    assert(is_leading_byte_width_1(b0));
}

// Accepting a two-byte encoding: lead bytes 0xc0 and 0xc1 would be overlong,
// so the lead must be at least 0xc2.
proof fn lemma_accept_width_2(s: Seq<u8>, b0: u8, b1: u8)
    requires
        s.len() >= 2,
        s[0] == b0,
        s[1] == b1,
        0xc2 <= b0 <= 0xdf,
        0x80 <= b1 <= 0xbf,
    ensures
        valid_first_scalar(s),
        length_of_first_scalar(s) == 2,
{
    assert(is_leading_byte_width_2(b0));
    assert(is_continuation_byte(b1));
    assert(length_of_first_codepoint(s) == 2);
    assert(decode_first_codepoint(s) == codepoint_width_2(b0, b1));
    let cp = codepoint_width_2(b0, b1);
    assert(cp == (((b0 & 0x1F) as u32) << 6) | ((b1 & 0x3f) as u32));
    assert(0x80 <= cp && cp <= 0x7ff) by (bit_vector)
        requires
            0xc2 <= b0 <= 0xdf,
            0x80 <= b1 <= 0xbf,
            cp == (((b0 & 0x1F) as u32) << 6) | ((b1 & 0x3f) as u32),
    ;
}

// Accepting a three-byte encoding, ruling out overlong forms (lead 0xe0 with
// a continuation below 0xa0) and the surrogate range (lead 0xed with a
// continuation of 0xa0 or above).
proof fn lemma_accept_width_3(s: Seq<u8>, b0: u8, b1: u8, b2: u8)
    requires
        s.len() >= 3,
        s[0] == b0,
        s[1] == b1,
        s[2] == b2,
        0xe0 <= b0 <= 0xef,
        0x80 <= b1 <= 0xbf,
        0x80 <= b2 <= 0xbf,
        b0 == 0xe0 ==> b1 >= 0xa0,
        b0 == 0xed ==> b1 < 0xa0,
    ensures
        valid_first_scalar(s),
        length_of_first_scalar(s) == 3,
{
    assert(is_leading_byte_width_3(b0));
    assert(is_continuation_byte(b1));
    assert(is_continuation_byte(b2));
    assert(length_of_first_codepoint(s) == 3);
    assert(decode_first_codepoint(s) == codepoint_width_3(b0, b1, b2));
    let cp = codepoint_width_3(b0, b1, b2);
    assert(cp == (((b0 & 0x0F) as u32) << 12) | (((b1 & 0x3f) as u32) << 6) | ((b2
        & 0x3f) as u32));
    assert(0x800 <= cp && cp <= 0xffff && !(0xd800 <= cp && cp <= 0xdfff)) by (bit_vector)
        requires
            0xe0 <= b0 <= 0xef,
            0x80 <= b1 <= 0xbf,
            0x80 <= b2 <= 0xbf,
            b0 == 0xe0 ==> b1 >= 0xa0,
            b0 == 0xed ==> b1 < 0xa0,
            cp == (((b0 & 0x0F) as u32) << 12) | (((b1 & 0x3f) as u32) << 6) | ((b2
                & 0x3f) as u32),
    ;
}

// Accepting a four-byte encoding, ruling out overlong forms (lead 0xf0 with
// a continuation below 0x90) and values beyond 0x10ffff (lead 0xf4 with a
// continuation of 0x90 or above; leads 0xf5 to 0xf7 always overflow).
proof fn lemma_accept_width_4(s: Seq<u8>, b0: u8, b1: u8, b2: u8, b3: u8)
    requires
        s.len() >= 4,
        s[0] == b0,
        s[1] == b1,
        s[2] == b2,
        s[3] == b3,
        0xf0 <= b0 <= 0xf4,
        0x80 <= b1 <= 0xbf,
        0x80 <= b2 <= 0xbf,
        0x80 <= b3 <= 0xbf,
        b0 == 0xf0 ==> b1 >= 0x90,
        b0 == 0xf4 ==> b1 < 0x90,
    ensures
        valid_first_scalar(s),
        length_of_first_scalar(s) == 4,
{
    assert(is_leading_byte_width_4(b0));
    assert(is_continuation_byte(b1));
    assert(is_continuation_byte(b2));
    assert(is_continuation_byte(b3));
    assert(length_of_first_codepoint(s) == 4);
    assert(decode_first_codepoint(s) == codepoint_width_4(b0, b1, b2, b3));
    let cp = codepoint_width_4(b0, b1, b2, b3);
    assert(cp == (((b0 & 0x07) as u32) << 18) | (((b1 & 0x3f) as u32) << 12) | (((b2
        & 0x3f) as u32) << 6) | ((b3 & 0x3f) as u32));
    assert(0x10000 <= cp && cp <= 0x10ffff) by (bit_vector)
        requires
            0xf0 <= b0 <= 0xf4,
            0x80 <= b1 <= 0xbf,
            b0 == 0xf0 ==> b1 >= 0x90,
            b0 == 0xf4 ==> b1 < 0x90,
            cp == (((b0 & 0x07) as u32) << 18) | (((b1 & 0x3f) as u32) << 12) | (((b2
                & 0x3f) as u32) << 6) | ((b3 & 0x3f) as u32),
    ;
}

// A sequence whose lead byte matches no width pattern, or whose required
// continuation bytes are missing or malformed, starts no scalar at all.
proof fn lemma_reject_shape(s: Seq<u8>)
    requires
        s.len() >= 1,
        is_leading_byte_width_2(s[0]) ==> s.len() < 2 || !is_continuation_byte(s[1]),
        is_leading_byte_width_3(s[0]) ==> s.len() < 3 || !is_continuation_byte(s[1])
            || !is_continuation_byte(s[2]),
        is_leading_byte_width_4(s[0]) ==> s.len() < 4 || !is_continuation_byte(s[1])
            || !is_continuation_byte(s[2]) || !is_continuation_byte(s[3]),
        !is_leading_byte_width_1(s[0]),
    ensures
        !valid_first_scalar(s),
{
}

// A two-byte sequence led by 0xc0 or 0xc1 decodes below 0x80: overlong.
proof fn lemma_reject_overlong_2(s: Seq<u8>, b0: u8, b1: u8)
    requires
        s.len() >= 2,
        s[0] == b0,
        s[1] == b1,
        0xc0 <= b0 <= 0xc1,
        0x80 <= b1 <= 0xbf,
    ensures
        !valid_first_scalar(s),
{
    assert(length_of_first_codepoint(s) == 2);
    let cp = codepoint_width_2(b0, b1);
    assert(cp == (((b0 & 0x1F) as u32) << 6) | ((b1 & 0x3f) as u32));
    assert(cp < 0x80) by (bit_vector)
        requires
            0xc0 <= b0 <= 0xc1,
            0x80 <= b1 <= 0xbf,
            cp == (((b0 & 0x1F) as u32) << 6) | ((b1 & 0x3f) as u32),
    ;
}

// A three-byte sequence that is overlong (lead 0xe0, continuation below
// 0xa0) or encodes a surrogate (lead 0xed, continuation 0xa0 or above).
proof fn lemma_reject_width_3(s: Seq<u8>, b0: u8, b1: u8, b2: u8)
    requires
        s.len() >= 3,
        s[0] == b0,
        s[1] == b1,
        s[2] == b2,
        0xe0 <= b0 <= 0xef,
        0x80 <= b1 <= 0xbf,
        0x80 <= b2 <= 0xbf,
        (b0 == 0xe0 && b1 < 0xa0) || (b0 == 0xed && b1 >= 0xa0),
    ensures
        !valid_first_scalar(s),
{
    assert(length_of_first_codepoint(s) == 3);
    let cp = codepoint_width_3(b0, b1, b2);
    assert(cp == (((b0 & 0x0F) as u32) << 12) | (((b1 & 0x3f) as u32) << 6) | ((b2
        & 0x3f) as u32));
    assert(cp < 0x800 || (0xd800 <= cp && cp <= 0xdfff)) by (bit_vector)
        requires
            0x80 <= b1 <= 0xbf,
            (b0 == 0xe0 && b1 < 0xa0) || (b0 == 0xed && b1 >= 0xa0),
            cp == (((b0 & 0x0F) as u32) << 12) | (((b1 & 0x3f) as u32) << 6) | ((b2
                & 0x3f) as u32),
    ;
}

// A four-byte sequence that is overlong (lead 0xf0, continuation below
// 0x90) or beyond 0x10ffff (lead 0xf4 with continuation 0x90 or above, or a
// lead of 0xf5 to 0xf7).
proof fn lemma_reject_width_4(s: Seq<u8>, b0: u8, b1: u8, b2: u8, b3: u8)
    requires
        s.len() >= 4,
        s[0] == b0,
        s[1] == b1,
        s[2] == b2,
        s[3] == b3,
        0xf0 <= b0 <= 0xf7,
        0x80 <= b1 <= 0xbf,
        0x80 <= b2 <= 0xbf,
        0x80 <= b3 <= 0xbf,
        (b0 == 0xf0 && b1 < 0x90) || (b0 == 0xf4 && b1 >= 0x90) || b0 >= 0xf5,
    ensures
        !valid_first_scalar(s),
{
    assert(length_of_first_codepoint(s) == 4);
    let cp = codepoint_width_4(b0, b1, b2, b3);
    assert(cp == (((b0 & 0x07) as u32) << 18) | (((b1 & 0x3f) as u32) << 12) | (((b2
        & 0x3f) as u32) << 6) | ((b3 & 0x3f) as u32));
    assert(cp < 0x10000 || cp > 0x10ffff) by (bit_vector)
        requires
            0x80 <= b1 <= 0xbf,
            (b0 == 0xf0 && b1 < 0x90) || (b0 == 0xf4 && b1 >= 0x90) || (0xf5 <= b0 <= 0xf7),
            cp == (((b0 & 0x07) as u32) << 18) | (((b1 & 0x3f) as u32) << 12) | (((b2
                & 0x3f) as u32) << 6) | ((b3 & 0x3f) as u32),
    ;
}

// An invalid first scalar at offset `i` after a valid prefix makes the whole
// sequence invalid.
proof fn lemma_invalid_at(bytes: Seq<u8>, i: int)
    requires
        0 <= i < bytes.len(),
        valid_utf8(bytes.subrange(0, i)),
        !valid_first_scalar(bytes.subrange(i, bytes.len() as int)),
    ensures
        !valid_utf8(bytes),
{
    let suffix = bytes.subrange(i, bytes.len() as int);
    assert(suffix.len() > 0);
    assert(!valid_utf8(suffix));
    partial_valid_partial_invalid_utf8(bytes, i);
}

/// Checks whether `bytes` is a valid UTF-8 encoding. On failure, reports the
/// length of the longest prefix that is valid UTF-8; the bytes after that
/// prefix begin no well-formed scalar encoding.
pub fn validate_utf8(bytes: &[u8]) -> (r: Result<(), usize>)
    ensures
        r is Ok <==> valid_utf8(bytes@),
        r matches Err(i) ==> {
            &&& i == utf8_valid_prefix_len(bytes@)
            &&& i < bytes@.len()
            &&& valid_utf8(bytes@.subrange(0, i as int))
            &&& !valid_first_scalar(bytes@.subrange(i as int, bytes@.len() as int))
        },
{
    let n = bytes.len();
    let mut i: usize = 0;
    proof {
        assert(bytes@.skip(0) =~= bytes@);
    }
    while i < n
        invariant
            i <= n,
            n == bytes@.len(),
            partial_valid_utf8(bytes@, i as int),
            utf8_valid_prefix_len(bytes@) == i + utf8_valid_prefix_len(bytes@.skip(i as int)),
        decreases n - i,
    {
        let ghost suffix = bytes@.subrange(i as int, bytes@.len() as int);
        proof {
            assert(suffix =~= bytes@.skip(i as int));
        }
        let b0 = bytes[i];
        if b0 < 0x80 {
            proof {
                lemma_accept_width_1(suffix, b0);
                partial_valid_utf8_extend(bytes@, i as int);
                assert(suffix.skip(1) =~= bytes@.skip(i as int + 1));
                assert(utf8_valid_prefix_len(suffix) == 1 + utf8_valid_prefix_len(suffix.skip(1)));
            }
            i = i + 1;
        } else if b0 < 0xc2 {
            // A continuation byte in lead position, or an overlong two-byte
            // lead (0xc0, 0xc1).
            proof {
                if b0 < 0xc0 {
                    lemma_reject_shape(suffix);
                } else {
                    if i + 1 < n && 0x80 <= bytes@[i as int + 1] < 0xc0 {
                        lemma_reject_overlong_2(suffix, b0, bytes@[i as int + 1]);
                    } else {
                        lemma_reject_shape(suffix);
                    }
                }
                lemma_invalid_at(bytes@, i as int);
                assert(utf8_valid_prefix_len(suffix) == 0);
            }
            return Err(i);
        } else if b0 < 0xe0 {
            if i + 1 >= n || !(0x80 <= bytes[i + 1] && bytes[i + 1] < 0xc0) {
                proof {
                    lemma_reject_shape(suffix);
                    lemma_invalid_at(bytes@, i as int);
                }
                return Err(i);
            }
            proof {
                lemma_accept_width_2(suffix, b0, bytes@[i as int + 1]);
                partial_valid_utf8_extend(bytes@, i as int);
                assert(suffix.skip(2) =~= bytes@.skip(i as int + 2));
                assert(utf8_valid_prefix_len(suffix) == 2 + utf8_valid_prefix_len(suffix.skip(2)));
            }
            i = i + 2;
        } else if b0 < 0xf0 {
            if n - i < 3 || !(0x80 <= bytes[i + 1] && bytes[i + 1] < 0xc0) || !(0x80 <= bytes[i
                + 2] && bytes[i + 2] < 0xc0) {
                proof {
                    lemma_reject_shape(suffix);
                    lemma_invalid_at(bytes@, i as int);
                }
                return Err(i);
            }
            let b1 = bytes[i + 1];
            if (b0 == 0xe0 && b1 < 0xa0) || (b0 == 0xed && b1 >= 0xa0) {
                proof {
                    lemma_reject_width_3(suffix, b0, b1, bytes@[i as int + 2]);
                    lemma_invalid_at(bytes@, i as int);
                }
                return Err(i);
            }
            proof {
                lemma_accept_width_3(suffix, b0, b1, bytes@[i as int + 2]);
                partial_valid_utf8_extend(bytes@, i as int);
                assert(suffix.skip(3) =~= bytes@.skip(i as int + 3));
                assert(utf8_valid_prefix_len(suffix) == 3 + utf8_valid_prefix_len(suffix.skip(3)));
            }
            i = i + 3;
        } else if b0 < 0xf8 {
            if n - i < 4 || !(0x80 <= bytes[i + 1] && bytes[i + 1] < 0xc0) || !(0x80 <= bytes[i
                + 2] && bytes[i + 2] < 0xc0) || !(0x80 <= bytes[i + 3] && bytes[i + 3] < 0xc0) {
                proof {
                    lemma_reject_shape(suffix);
                    lemma_invalid_at(bytes@, i as int);
                }
                return Err(i);
            }
            let b1 = bytes[i + 1];
            if (b0 == 0xf0 && b1 < 0x90) || (b0 == 0xf4 && b1 >= 0x90) || b0 >= 0xf5 {
                proof {
                    lemma_reject_width_4(suffix, b0, b1, bytes@[i as int + 2], bytes@[i as int + 3]);
                    lemma_invalid_at(bytes@, i as int);
                }
                return Err(i);
            }
            proof {
                lemma_accept_width_4(suffix, b0, b1, bytes@[i as int + 2], bytes@[i as int + 3]);
                partial_valid_utf8_extend(bytes@, i as int);
                assert(suffix.skip(4) =~= bytes@.skip(i as int + 4));
                assert(utf8_valid_prefix_len(suffix) == 4 + utf8_valid_prefix_len(suffix.skip(4)));
            }
            i = i + 4;
        } else {
            proof {
                lemma_reject_shape(suffix);
                lemma_invalid_at(bytes@, i as int);
                assert(utf8_valid_prefix_len(suffix) == 0);
            }
            return Err(i);
        }
    }
    proof {
        assert(bytes@.subrange(0, bytes@.len() as int) =~= bytes@);
    }
    Ok(())
}

/// Relies on `String::from_utf8` of std: bytes that are a valid UTF-8
/// encoding convert to exactly the string of the scalars they encode, with
/// no replacement or loss.
#[verifier::external_body]
pub(crate) fn string_from_utf8(bytes: Vec<u8>) -> (r: String)
    requires
        valid_utf8(bytes@),
    ensures
        r@ == decode_utf8(bytes@),
{
    String::from_utf8(bytes).unwrap_or_default()
}

/// Decodes accumulated text-part bytes, strictly: the exact character
/// sequence the bytes encode on success, and on failure the length of the
/// longest valid prefix, with the input never altered or truncated.
pub fn decode_text(bytes: Vec<u8>) -> (r: Result<String, usize>)
    ensures
        r is Ok <==> valid_utf8(bytes@),
        r matches Ok(s) ==> s@ == decode_utf8(bytes@),
        r matches Err(i) ==> {
            &&& i == utf8_valid_prefix_len(bytes@)
            &&& i < bytes@.len()
            &&& valid_utf8(bytes@.subrange(0, i as int))
            &&& !valid_first_scalar(bytes@.subrange(i as int, bytes@.len() as int))
        },
{
    match validate_utf8(bytes.as_slice()) {
        Ok(()) => Ok(string_from_utf8(bytes)),
        Err(i) => Err(i),
    }
}

/// Every character sequence survives the UTF-8 round trip: its encoding is
/// valid UTF-8, and decoding that encoding yields the sequence again. In
/// particular a text part whose bytes were produced by encoding a string
/// decodes to exactly that string.
pub proof fn lemma_utf8_round_trip(chars: Seq<char>)
    ensures
        valid_utf8(encode_utf8(chars)),
        decode_utf8(encode_utf8(chars)) == chars,
{
    encode_utf8_valid_utf8(chars);
    encode_utf8_decode_utf8(chars);
}

} // verus!
