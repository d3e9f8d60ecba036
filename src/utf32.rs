use crate::cursor::Cursor;
use crate::encoding::Encoding;
use crate::scalar::{char_from_u32, decoded, is_scalar, DecodeError};
use vstd::prelude::*;

verus! {

/// The character that a 32-bit unit stands for, where it is a scalar value.
pub open spec fn unit32_char(v: u32) -> Option<(char, nat)> {
    if is_scalar(v as int) {
        Some((v as char, 1))
    } else {
        None
    }
}

/// The character that UTF-32 finds at the front of the units `s`.
pub open spec fn utf32_first(s: Seq<u32>) -> Option<(char, nat)> {
    if s.len() == 0 {
        None
    } else {
        unit32_char(s[0])
    }
}

/// The unit made of four bytes, the most significant first.
pub open spec fn unit32(b0: u8, b1: u8, b2: u8, b3: u8) -> u32 {
    (b0 as u32) << 24u32 | (b1 as u32) << 16u32 | (b2 as u32) << 8u32 | b3 as u32
}

/// The character that UTF-32 finds at the front of big-endian bytes.
pub open spec fn utf32_be_first(s: Seq<u8>) -> Option<(char, nat)> {
    if s.len() < 4 {
        None
    } else {
        match unit32_char(unit32(s[0], s[1], s[2], s[3])) {
            Some((c, n)) => Some((c, 4 * n)),
            None => None,
        }
    }
}

/// The character that UTF-32 finds at the front of little-endian bytes.
pub open spec fn utf32_le_first(s: Seq<u8>) -> Option<(char, nat)> {
    if s.len() < 4 {
        None
    } else {
        match unit32_char(unit32(s[3], s[2], s[1], s[0])) {
            Some((c, n)) => Some((c, 4 * n)),
            None => None,
        }
    }
}

/// A unit that is not a scalar value (a surrogate, or past 0x10FFFF) is
/// rejected, in every byte order.
pub proof fn lemma_utf32_rejects_non_scalars(s: Seq<u32>, b: Seq<u8>)
    ensures
        s.len() > 0 && !is_scalar(s[0] as int) ==> utf32_first(s) is None,
        b.len() >= 4 && !is_scalar(unit32(b[0], b[1], b[2], b[3]) as int) ==> utf32_be_first(b) is None,
        b.len() >= 4 && !is_scalar(unit32(b[3], b[2], b[1], b[0]) as int) ==> utf32_le_first(b) is None,
{
}

/// The bytes of `v`, the most significant first.
pub open spec fn be_bytes32(v: u32) -> Seq<u8> {
    seq![(v >> 24u32) as u8, ((v >> 16u32) & 0xFF) as u8, ((v >> 8u32) & 0xFF) as u8, (v & 0xFF) as u8]
}

/// The bytes of `v`, the least significant first.
pub open spec fn le_bytes32(v: u32) -> Seq<u8> {
    seq![(v & 0xFF) as u8, ((v >> 8u32) & 0xFF) as u8, ((v >> 16u32) & 0xFF) as u8, (v >> 24u32) as u8]
}

proof fn lemma_unit32_of_bytes(v: u32)
    ensures
        unit32(
            (v >> 24u32) as u8,
            ((v >> 16u32) & 0xFF) as u8,
            ((v >> 8u32) & 0xFF) as u8,
            (v & 0xFF) as u8,
        ) == v,
{
    let b0 = (v >> 24u32) as u8;
    let b1 = ((v >> 16u32) & 0xFF) as u8;
    let b2 = ((v >> 8u32) & 0xFF) as u8;
    let b3 = (v & 0xFF) as u8;
    assert((b0 as u32) << 24u32 | (b1 as u32) << 16u32 | (b2 as u32) << 8u32 | b3 as u32 == v)
        by (bit_vector)
        requires
            b0 == (v >> 24u32) as u8,
            b1 == ((v >> 16u32) & 0xFF) as u8,
            b2 == ((v >> 8u32) & 0xFF) as u8,
            b3 == (v & 0xFF) as u8,
    ;
}

proof fn lemma_bytes_of_unit32(b0: u8, b1: u8, b2: u8, b3: u8)
    ensures
        be_bytes32(unit32(b0, b1, b2, b3)) == seq![b0, b1, b2, b3],
        le_bytes32(unit32(b0, b1, b2, b3)) == seq![b3, b2, b1, b0],
{
    let v = unit32(b0, b1, b2, b3);
    assert((v >> 24u32) as u8 == b0 && ((v >> 16u32) & 0xFF) as u8 == b1 && ((v >> 8u32) & 0xFF) as u8
        == b2 && (v & 0xFF) as u8 == b3) by (bit_vector)
        requires
            v == (b0 as u32) << 24u32 | (b1 as u32) << 16u32 | (b2 as u32) << 8u32 | b3 as u32,
    ;
    assert(be_bytes32(v) =~= seq![b0, b1, b2, b3]);
    assert(le_bytes32(v) =~= seq![b3, b2, b1, b0]);
}

/// A character's value is a scalar value and turns back into the character.
proof fn lemma_char_value(c: char)
    ensures
        unit32_char(c as u32) == Some((c, 1nat)),
{
    vstd::utf8::char_is_scalar(c);
    vstd::utf8::char_u32_cast(c, c as u32);
}

/// Decodes one UTF-32 encoded character from native 32-bit units.
pub fn utf32(src: &mut Cursor<u32>) -> (r: Result<char, DecodeError>)
    requires
        old(src).wf(),
    ensures
        decoded(utf32_first(old(src).rest()), DecodeError::Utf32, *old(src), *final(src), r),
{
    let v = match src.peek(0) {
        Some(v) => v,
        None => return Err(DecodeError::Utf32),
    };
    match char_from_u32(v) {
        Some(c) => {
            proof {
                vstd::utf8::char_u32_cast(c, v);
            }
            src.advance(1);
            Ok(c)
        },
        None => Err(DecodeError::Utf32),
    }
}

/// Decodes one UTF-32 encoded character from four bytes in the given order.
fn utf32_bytes(src: &mut Cursor<u8>, big_endian: bool, e: DecodeError) -> (r: Result<char, DecodeError>)
    requires
        old(src).wf(),
    ensures
        decoded(
            if big_endian {
                utf32_be_first(old(src).rest())
            } else {
                utf32_le_first(old(src).rest())
            },
            e,
            *old(src),
            *final(src),
            r,
        ),
{
    let b0 = match src.peek(0) {
        Some(b) => b,
        None => return Err(e),
    };
    let b1 = match src.peek(1) {
        Some(b) => b,
        None => return Err(e),
    };
    let b2 = match src.peek(2) {
        Some(b) => b,
        None => return Err(e),
    };
    let b3 = match src.peek(3) {
        Some(b) => b,
        None => return Err(e),
    };
    let v = if big_endian {
        (b0 as u32) << 24u32 | (b1 as u32) << 16u32 | (b2 as u32) << 8u32 | b3 as u32
    } else {
        (b3 as u32) << 24u32 | (b2 as u32) << 16u32 | (b1 as u32) << 8u32 | b0 as u32
    };
    match char_from_u32(v) {
        Some(c) => {
            proof {
                vstd::utf8::char_u32_cast(c, v);
            }
            src.advance(4);
            Ok(c)
        },
        None => Err(e),
    }
}

/// Decodes one UTF-32 encoded character from big-endian bytes.
pub fn utf32_be(src: &mut Cursor<u8>) -> (r: Result<char, DecodeError>)
    requires
        old(src).wf(),
    ensures
        decoded(utf32_be_first(old(src).rest()), DecodeError::Utf32Be, *old(src), *final(src), r),
{
    utf32_bytes(src, true, DecodeError::Utf32Be)
}

/// Decodes one UTF-32 encoded character from little-endian bytes.
pub fn utf32_le(src: &mut Cursor<u8>) -> (r: Result<char, DecodeError>)
    requires
        old(src).wf(),
    ensures
        decoded(utf32_le_first(old(src).rest()), DecodeError::Utf32Le, *old(src), *final(src), r),
{
    utf32_bytes(src, false, DecodeError::Utf32Le)
}

/// UTF-32 over native 32-bit units.
pub struct Utf32;

/// UTF-32 over bytes, the most significant byte of each unit first.
pub struct Utf32Be;

/// UTF-32 over bytes, the least significant byte of each unit first.
pub struct Utf32Le;

impl Encoding for Utf32 {
    type Unit = u32;

    open spec fn first(s: Seq<u32>) -> Option<(char, nat)> {
        utf32_first(s)
    }

    open spec fn encode(c: char) -> Seq<u32> {
        seq![c as u32]
    }

    open spec fn can_encode(c: char) -> bool {
        true
    }

    open spec fn error() -> DecodeError {
        DecodeError::Utf32
    }

    proof fn lemma_first_len(s: Seq<u32>) {
    }

    proof fn lemma_round_trip(c: char, tail: Seq<u32>) {
        assert((seq![c as u32] + tail)[0] == c as u32);
        lemma_char_value(c);
    }

    proof fn lemma_only_encodings(s: Seq<u32>) {
        if s.len() > 0 && is_scalar(s[0] as int) {
            assert(s.take(1) =~= seq![s[0]]);
        }
    }

    fn decode(src: &mut Cursor<u32>) -> (r: Result<char, DecodeError>) {
        utf32(src)
    }
}

impl Encoding for Utf32Be {
    type Unit = u8;

    open spec fn first(s: Seq<u8>) -> Option<(char, nat)> {
        utf32_be_first(s)
    }

    open spec fn encode(c: char) -> Seq<u8> {
        be_bytes32(c as u32)
    }

    open spec fn can_encode(c: char) -> bool {
        true
    }

    open spec fn error() -> DecodeError {
        DecodeError::Utf32Be
    }

    proof fn lemma_first_len(s: Seq<u8>) {
    }

    proof fn lemma_round_trip(c: char, tail: Seq<u8>) {
        let e = be_bytes32(c as u32);
        let s = e + tail;
        assert(s[0] == e[0] && s[1] == e[1] && s[2] == e[2] && s[3] == e[3]);
        lemma_unit32_of_bytes(c as u32);
        lemma_char_value(c);
    }

    proof fn lemma_only_encodings(s: Seq<u8>) {
        if s.len() >= 4 {
            lemma_bytes_of_unit32(s[0], s[1], s[2], s[3]);
            assert(s.take(4) =~= seq![s[0], s[1], s[2], s[3]]);
        }
    }

    fn decode(src: &mut Cursor<u8>) -> (r: Result<char, DecodeError>) {
        utf32_be(src)
    }
}

impl Encoding for Utf32Le {
    type Unit = u8;

    open spec fn first(s: Seq<u8>) -> Option<(char, nat)> {
        utf32_le_first(s)
    }

    open spec fn encode(c: char) -> Seq<u8> {
        le_bytes32(c as u32)
    }

    open spec fn can_encode(c: char) -> bool {
        true
    }

    open spec fn error() -> DecodeError {
        DecodeError::Utf32Le
    }

    proof fn lemma_first_len(s: Seq<u8>) {
    }

    proof fn lemma_round_trip(c: char, tail: Seq<u8>) {
        let e = le_bytes32(c as u32);
        let s = e + tail;
        assert(s[0] == e[0] && s[1] == e[1] && s[2] == e[2] && s[3] == e[3]);
        lemma_unit32_of_bytes(c as u32);
        lemma_char_value(c);
    }

    proof fn lemma_only_encodings(s: Seq<u8>) {
        if s.len() >= 4 {
            lemma_bytes_of_unit32(s[3], s[2], s[1], s[0]);
            assert(s.take(4) =~= seq![s[0], s[1], s[2], s[3]]);
        }
    }

    fn decode(src: &mut Cursor<u8>) -> (r: Result<char, DecodeError>) {
        utf32_le(src)
    }
}

} // verus!
