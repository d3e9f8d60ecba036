use crate::cursor::Cursor;
use crate::encoding::Encoding;
use crate::scalar::{decoded, scalar_char, DecodeError};
use vstd::prelude::*;

verus! {

/// A continuation byte: `10xxxxxx`.
pub open spec fn is_continuation(b: u8) -> bool {
    b & 0xC0 == 0x80
}

/// The second byte of a multi-byte sequence led by `b1` is a continuation byte
/// that keeps the sequence from being overlong, a surrogate, or past 0x10FFFF.
pub open spec fn second_byte_ok(b1: u8, b2: u8) -> bool {
    &&& is_continuation(b2)
    &&& !(b1 == 0xE0 && b2 < 0xA0)
    &&& !(b1 == 0xED && b2 >= 0xA0)
    &&& !(b1 == 0xF0 && b2 < 0x90)
    &&& !(b1 == 0xF4 && b2 >= 0x90)
}

/// The value carried by a two-byte sequence.
pub open spec fn value2(b1: u8, b2: u8) -> u32 {
    ((b1 & 0x1F) as u32) << 6u32 | (b2 & 0x3F) as u32
}

/// The value carried by a three-byte sequence.
pub open spec fn value3(b1: u8, b2: u8, b3: u8) -> u32 {
    ((b1 & 0x0F) as u32) << 12u32 | ((b2 & 0x3F) as u32) << 6u32 | (b3 & 0x3F) as u32
}

/// The value carried by a four-byte sequence.
pub open spec fn value4(b1: u8, b2: u8, b3: u8, b4: u8) -> u32 {
    ((b1 & 0x07) as u32) << 18u32 | ((b2 & 0x3F) as u32) << 12u32 | ((b3 & 0x3F) as u32) << 6u32
        | (b4 & 0x3F) as u32
}

/// The character that UTF-8 finds at the front of `s`, with the number of
/// bytes it takes, or `None` where the front is not a well-formed sequence.
pub open spec fn utf8_first(s: Seq<u8>) -> Option<(char, nat)> {
    if s.len() == 0 {
        None
    } else if s[0] <= 0x7F {
        Some((s[0] as u32 as char, 1))
    } else if !(0xC2 <= s[0] <= 0xF4) || s.len() < 2 || !second_byte_ok(s[0], s[1]) {
        None
    } else if s[0] <= 0xDF {
        Some((value2(s[0], s[1]) as char, 2))
    } else if s.len() < 3 || !is_continuation(s[2]) {
        None
    } else if s[0] <= 0xEF {
        Some((value3(s[0], s[1], s[2]) as char, 3))
    } else if s.len() < 4 || !is_continuation(s[3]) {
        None
    } else {
        Some((value4(s[0], s[1], s[2], s[3]) as char, 4))
    }
}

proof fn lemma_value2_range(b1: u8, b2: u8)
    requires
        0xC2 <= b1 <= 0xDF,
        is_continuation(b2),
    ensures
        0x80 <= value2(b1, b2) <= 0x7FF,
{
    assert(0x80 <= value2(b1, b2) <= 0x7FF) by (bit_vector)
        requires
            0xC2 <= b1 <= 0xDF,
            b2 & 0xC0 == 0x80,
    ;
}

proof fn lemma_value3_range(b1: u8, b2: u8, b3: u8)
    requires
        0xE0 <= b1 <= 0xEF,
        second_byte_ok(b1, b2),
        is_continuation(b3),
    ensures
        0x800 <= value3(b1, b2, b3) <= 0xFFFF,
        !(0xD800 <= value3(b1, b2, b3) <= 0xDFFF),
{
    let v = value3(b1, b2, b3);
    assert(0x800 <= v <= 0xFFFF && !(0xD800 <= v <= 0xDFFF)) by (bit_vector)
        requires
            0xE0 <= b1 <= 0xEF,
            b2 & 0xC0 == 0x80,
            !(b1 == 0xE0 && b2 < 0xA0),
            !(b1 == 0xED && b2 >= 0xA0),
            b3 & 0xC0 == 0x80,
            v == ((b1 & 0x0F) as u32) << 12u32 | ((b2 & 0x3F) as u32) << 6u32 | (b3 & 0x3F) as u32,
    ;
}

proof fn lemma_value4_range(b1: u8, b2: u8, b3: u8, b4: u8)
    requires
        0xF0 <= b1 <= 0xF4,
        second_byte_ok(b1, b2),
        is_continuation(b3),
        is_continuation(b4),
    ensures
        0x10000 <= value4(b1, b2, b3, b4) <= 0x10FFFF,
{
    let v = value4(b1, b2, b3, b4);
    assert(0x10000 <= v <= 0x10FFFF) by (bit_vector)
        requires
            0xF0 <= b1 <= 0xF4,
            b2 & 0xC0 == 0x80,
            !(b1 == 0xF0 && b2 < 0x90),
            !(b1 == 0xF4 && b2 >= 0x90),
            b3 & 0xC0 == 0x80,
            b4 & 0xC0 == 0x80,
            v == ((b1 & 0x07) as u32) << 18u32 | ((b2 & 0x3F) as u32) << 12u32 | ((b3 & 0x3F)
                as u32) << 6u32 | (b4 & 0x3F) as u32,
    ;
}

/// The UTF-8 bytes of `c`.
pub open spec fn utf8_encode(c: char) -> Seq<u8> {
    vstd::utf8::encode_scalar(c as u32)
}

proof fn lemma_encode_width1(v: u32)
    requires
        v <= 0x7F,
    ensures
        vstd::utf8::leading_byte_width_1(v) <= 0x7F,
        vstd::utf8::leading_byte_width_1(v) as u32 == v,
{
    assert(((v & 0x7F) as u8) <= 0x7F && ((v & 0x7F) as u8) as u32 == v) by (bit_vector)
        requires
            v <= 0x7F,
    ;
}

proof fn lemma_encode_width2(v: u32)
    requires
        0x80 <= v <= 0x7FF,
    ensures
        ({
            let b1 = vstd::utf8::leading_byte_width_2(v);
            let b2 = vstd::utf8::last_continuation_byte(v);
            &&& 0xC2 <= b1 <= 0xDF
            &&& second_byte_ok(b1, b2)
            &&& value2(b1, b2) == v
        }),
{
    let b1 = vstd::utf8::leading_byte_width_2(v);
    let b2 = vstd::utf8::last_continuation_byte(v);
    assert(0xC2 <= b1 <= 0xDF && b2 & 0xC0 == 0x80 && ((b1 & 0x1F) as u32) << 6u32 | (b2 & 0x3F)
        as u32 == v) by (bit_vector)
        requires
            0x80 <= v <= 0x7FF,
            b1 == 0xC0 | ((v >> 6) & 0x1F) as u8,
            b2 == 0x80 | (v & 0x3F) as u8,
    ;
}

proof fn lemma_encode_width3(v: u32)
    requires
        0x800 <= v <= 0xFFFF,
        !(0xD800 <= v <= 0xDFFF),
    ensures
        ({
            let b1 = vstd::utf8::leading_byte_width_3(v);
            let b2 = vstd::utf8::second_last_continuation_byte(v);
            let b3 = vstd::utf8::last_continuation_byte(v);
            &&& 0xE0 <= b1 <= 0xEF
            &&& second_byte_ok(b1, b2)
            &&& is_continuation(b3)
            &&& value3(b1, b2, b3) == v
        }),
{
    let b1 = vstd::utf8::leading_byte_width_3(v);
    let b2 = vstd::utf8::second_last_continuation_byte(v);
    let b3 = vstd::utf8::last_continuation_byte(v);
    assert(0xE0 <= b1 <= 0xEF && b2 & 0xC0 == 0x80 && !(b1 == 0xE0 && b2 < 0xA0) && !(b1 == 0xED
        && b2 >= 0xA0) && b3 & 0xC0 == 0x80 && ((b1 & 0x0F) as u32) << 12u32 | ((b2 & 0x3F) as u32)
        << 6u32 | (b3 & 0x3F) as u32 == v) by (bit_vector)
        requires
            0x800 <= v <= 0xFFFF,
            !(0xD800 <= v <= 0xDFFF),
            b1 == 0xE0 | ((v >> 12) & 0x0F) as u8,
            b2 == 0x80 | ((v >> 6) & 0x3F) as u8,
            b3 == 0x80 | (v & 0x3F) as u8,
    ;
}

proof fn lemma_encode_width4(v: u32)
    requires
        0x10000 <= v <= 0x10FFFF,
    ensures
        ({
            let b1 = vstd::utf8::leading_byte_width_4(v);
            let b2 = vstd::utf8::third_last_continuation_byte(v);
            let b3 = vstd::utf8::second_last_continuation_byte(v);
            let b4 = vstd::utf8::last_continuation_byte(v);
            &&& 0xF0 <= b1 <= 0xF4
            &&& second_byte_ok(b1, b2)
            &&& is_continuation(b3)
            &&& is_continuation(b4)
            &&& value4(b1, b2, b3, b4) == v
        }),
{
    let b1 = vstd::utf8::leading_byte_width_4(v);
    let b2 = vstd::utf8::third_last_continuation_byte(v);
    let b3 = vstd::utf8::second_last_continuation_byte(v);
    let b4 = vstd::utf8::last_continuation_byte(v);
    assert(0xF0 <= b1 <= 0xF4 && b2 & 0xC0 == 0x80 && !(b1 == 0xF0 && b2 < 0x90) && !(b1 == 0xF4
        && b2 >= 0x90) && b3 & 0xC0 == 0x80 && b4 & 0xC0 == 0x80 && ((b1 & 0x07) as u32) << 18u32
        | ((b2 & 0x3F) as u32) << 12u32 | ((b3 & 0x3F) as u32) << 6u32 | (b4 & 0x3F) as u32 == v)
        by (bit_vector)
        requires
            0x10000 <= v <= 0x10FFFF,
            b1 == 0xF0 | ((v >> 18) & 0x7) as u8,
            b2 == 0x80 | ((v >> 12) & 0x3F) as u8,
            b3 == 0x80 | ((v >> 6) & 0x3F) as u8,
            b4 == 0x80 | (v & 0x3F) as u8,
    ;
}

/// A continuation byte is exactly a byte from 0x80 to 0xBF.
pub proof fn lemma_continuation_range(b: u8)
    ensures
        is_continuation(b) <==> 0x80 <= b <= 0xBF,
{
    assert((b & 0xC0 == 0x80) <==> (0x80 <= b <= 0xBF)) by (bit_vector);
}

/// Malformed UTF-8 is rejected: a lead byte from 0x80 to 0xC1 (a stray
/// continuation byte, or the overlong two-byte leads 0xC0 and 0xC1); the
/// overlong three- and four-byte forms; encoded surrogates; leads and second
/// bytes that would pass 0x10FFFF; and a byte outside 0x80 to 0xBF where a
/// continuation byte is due.
pub proof fn lemma_utf8_rejects_malformed(s: Seq<u8>)
    ensures
        s.len() > 0 && 0x80 <= s[0] <= 0xC1 ==> utf8_first(s) is None,
        s.len() > 0 && s[0] >= 0xF5 ==> utf8_first(s) is None,
        s.len() > 1 && s[0] == 0xE0 && s[1] < 0xA0 ==> utf8_first(s) is None,
        s.len() > 1 && s[0] == 0xF0 && s[1] < 0x90 ==> utf8_first(s) is None,
        s.len() > 1 && s[0] == 0xED && s[1] >= 0xA0 ==> utf8_first(s) is None,
        s.len() > 1 && s[0] == 0xF4 && s[1] >= 0x90 ==> utf8_first(s) is None,
        s.len() > 1 && s[0] >= 0xC2 && !(0x80 <= s[1] <= 0xBF) ==> utf8_first(s) is None,
        s.len() > 2 && s[0] >= 0xE0 && !(0x80 <= s[2] <= 0xBF) ==> utf8_first(s) is None,
        s.len() > 3 && s[0] >= 0xF0 && !(0x80 <= s[3] <= 0xBF) ==> utf8_first(s) is None,
{
    if s.len() > 1 {
        lemma_continuation_range(s[1]);
    }
    if s.len() > 2 {
        lemma_continuation_range(s[2]);
    }
    if s.len() > 3 {
        lemma_continuation_range(s[3]);
    }
}

proof fn lemma_decode_width2(b1: u8, b2: u8)
    requires
        0xC2 <= b1 <= 0xDF,
        is_continuation(b2),
    ensures
        vstd::utf8::leading_byte_width_2(value2(b1, b2)) == b1,
        vstd::utf8::last_continuation_byte(value2(b1, b2)) == b2,
{
    let v = value2(b1, b2);
    assert(0xC0 | ((v >> 6) & 0x1F) as u8 == b1 && 0x80 | (v & 0x3F) as u8 == b2) by (bit_vector)
        requires
            0xC2 <= b1 <= 0xDF,
            b2 & 0xC0 == 0x80,
            v == ((b1 & 0x1F) as u32) << 6u32 | (b2 & 0x3F) as u32,
    ;
}

proof fn lemma_decode_width3(b1: u8, b2: u8, b3: u8)
    requires
        0xE0 <= b1 <= 0xEF,
        is_continuation(b2),
        is_continuation(b3),
    ensures
        vstd::utf8::leading_byte_width_3(value3(b1, b2, b3)) == b1,
        vstd::utf8::second_last_continuation_byte(value3(b1, b2, b3)) == b2,
        vstd::utf8::last_continuation_byte(value3(b1, b2, b3)) == b3,
{
    let v = value3(b1, b2, b3);
    assert(0xE0 | ((v >> 12) & 0x0F) as u8 == b1 && 0x80 | ((v >> 6) & 0x3F) as u8 == b2 && 0x80 | (v
        & 0x3F) as u8 == b3) by (bit_vector)
        requires
            0xE0 <= b1 <= 0xEF,
            b2 & 0xC0 == 0x80,
            b3 & 0xC0 == 0x80,
            v == ((b1 & 0x0F) as u32) << 12u32 | ((b2 & 0x3F) as u32) << 6u32 | (b3 & 0x3F) as u32,
    ;
}

proof fn lemma_decode_width4(b1: u8, b2: u8, b3: u8, b4: u8)
    requires
        0xF0 <= b1 <= 0xF4,
        is_continuation(b2),
        is_continuation(b3),
        is_continuation(b4),
    ensures
        vstd::utf8::leading_byte_width_4(value4(b1, b2, b3, b4)) == b1,
        vstd::utf8::third_last_continuation_byte(value4(b1, b2, b3, b4)) == b2,
        vstd::utf8::second_last_continuation_byte(value4(b1, b2, b3, b4)) == b3,
        vstd::utf8::last_continuation_byte(value4(b1, b2, b3, b4)) == b4,
{
    let v = value4(b1, b2, b3, b4);
    assert(0xF0 | ((v >> 18) & 0x7) as u8 == b1 && 0x80 | ((v >> 12) & 0x3F) as u8 == b2 && 0x80 | ((
    v >> 6) & 0x3F) as u8 == b3 && 0x80 | (v & 0x3F) as u8 == b4) by (bit_vector)
        requires
            0xF0 <= b1 <= 0xF4,
            b2 & 0xC0 == 0x80,
            b3 & 0xC0 == 0x80,
            b4 & 0xC0 == 0x80,
            v == ((b1 & 0x07) as u32) << 18u32 | ((b2 & 0x3F) as u32) << 12u32 | ((b3 & 0x3F)
                as u32) << 6u32 | (b4 & 0x3F) as u32,
    ;
}

/// Decodes one UTF-8 encoded character.
pub fn utf8(src: &mut Cursor<u8>) -> (r: Result<char, DecodeError>)
    requires
        old(src).wf(),
    ensures
        decoded(utf8_first(old(src).rest()), DecodeError::Utf8, *old(src), *final(src), r),
{
    let ghost s = src.rest();
    let b1 = match src.peek(0) {
        Some(b) => b,
        None => return Err(DecodeError::Utf8),
    };
    if b1 <= 0x7F {
        src.advance(1);
        return Ok(scalar_char(b1 as u32));
    }
    if !(0xC2 <= b1 && b1 <= 0xF4) {
        return Err(DecodeError::Utf8);
    }
    let b2 = match src.peek(1) {
        Some(b) => b,
        None => return Err(DecodeError::Utf8),
    };
    if b2 & 0xC0 != 0x80 || (b1 == 0xE0 && b2 < 0xA0) || (b1 == 0xED && b2 >= 0xA0) || (b1 == 0xF0
        && b2 < 0x90) || (b1 == 0xF4 && b2 >= 0x90) {
        return Err(DecodeError::Utf8);
    }
    if b1 <= 0xDF {
        proof {
            lemma_value2_range(b1, b2);
        }
        let v = ((b1 & 0x1F) as u32) << 6u32 | (b2 & 0x3F) as u32;
        src.advance(2);
        return Ok(scalar_char(v));
    }
    let b3 = match src.peek(2) {
        Some(b) => b,
        None => return Err(DecodeError::Utf8),
    };
    if b3 & 0xC0 != 0x80 {
        return Err(DecodeError::Utf8);
    }
    if b1 <= 0xEF {
        proof {
            lemma_value3_range(b1, b2, b3);
        }
        let v = ((b1 & 0x0F) as u32) << 12u32 | ((b2 & 0x3F) as u32) << 6u32 | (b3 & 0x3F) as u32;
        src.advance(3);
        return Ok(scalar_char(v));
    }
    let b4 = match src.peek(3) {
        Some(b) => b,
        None => return Err(DecodeError::Utf8),
    };
    if b4 & 0xC0 != 0x80 {
        return Err(DecodeError::Utf8);
    }
    proof {
        lemma_value4_range(b1, b2, b3, b4);
    }
    let v = ((b1 & 0x07) as u32) << 18u32 | ((b2 & 0x3F) as u32) << 12u32 | ((b3 & 0x3F) as u32)
        << 6u32 | (b4 & 0x3F) as u32;
    src.advance(4);
    Ok(scalar_char(v))
}

/// UTF-8 over bytes.
pub struct Utf8;

impl Encoding for Utf8 {
    type Unit = u8;

    open spec fn first(s: Seq<u8>) -> Option<(char, nat)> {
        utf8_first(s)
    }

    open spec fn encode(c: char) -> Seq<u8> {
        utf8_encode(c)
    }

    open spec fn can_encode(c: char) -> bool {
        true
    }

    open spec fn error() -> DecodeError {
        DecodeError::Utf8
    }

    proof fn lemma_first_len(s: Seq<u8>) {
    }

    proof fn lemma_round_trip(c: char, tail: Seq<u8>) {
        let v = c as u32;
        let e = utf8_encode(c);
        let s = e + tail;
        vstd::utf8::char_is_scalar(c);
        vstd::utf8::char_u32_cast(c, v);
        if v <= 0x7F {
            lemma_encode_width1(v);
            assert(s[0] == e[0]);
        } else if v <= 0x7FF {
            lemma_encode_width2(v);
            assert(s[0] == e[0] && s[1] == e[1]);
        } else if v <= 0xFFFF {
            lemma_encode_width3(v);
            assert(s[0] == e[0] && s[1] == e[1] && s[2] == e[2]);
        } else {
            lemma_encode_width4(v);
            assert(s[0] == e[0] && s[1] == e[1] && s[2] == e[2] && s[3] == e[3]);
        }
    }

    proof fn lemma_only_encodings(s: Seq<u8>) {
        if let Some((c, n)) = utf8_first(s) {
            if n == 1 {
                lemma_encode_width1(s[0] as u32);
                assert(s.take(1) =~= seq![s[0]]);
                assert(utf8_encode(c) =~= seq![s[0]]);
            } else if n == 2 {
                lemma_value2_range(s[0], s[1]);
                lemma_decode_width2(s[0], s[1]);
                assert(s.take(2) =~= seq![s[0], s[1]]);
                assert(utf8_encode(c) =~= seq![s[0], s[1]]);
            } else if n == 3 {
                lemma_value3_range(s[0], s[1], s[2]);
                lemma_decode_width3(s[0], s[1], s[2]);
                assert(s.take(3) =~= seq![s[0], s[1], s[2]]);
                assert(utf8_encode(c) =~= seq![s[0], s[1], s[2]]);
            } else {
                lemma_value4_range(s[0], s[1], s[2], s[3]);
                lemma_decode_width4(s[0], s[1], s[2], s[3]);
                assert(s.take(4) =~= seq![s[0], s[1], s[2], s[3]]);
                assert(utf8_encode(c) =~= seq![s[0], s[1], s[2], s[3]]);
            }
        }
    }

    fn decode(src: &mut Cursor<u8>) -> (r: Result<char, DecodeError>) {
        utf8(src)
    }
}

} // verus!
