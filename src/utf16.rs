use crate::cursor::Cursor;
use crate::encoding::Encoding;
use crate::scalar::{decoded, scalar_char, DecodeError};
use vstd::prelude::*;

verus! {

/// A high (leading) surrogate: 0xD800 to 0xDBFF.
pub open spec fn is_high_surrogate(u: u16) -> bool {
    u & 0xFC00 == 0xD800
}

/// A low (trailing) surrogate: 0xDC00 to 0xDFFF.
pub open spec fn is_low_surrogate(u: u16) -> bool {
    u & 0xFC00 == 0xDC00
}

/// The value that a high surrogate `u1` and a low surrogate `u2` stand for.
pub open spec fn pair_value(u1: u16, u2: u16) -> u32 {
    ((((u1 & 0x3C0) >> 6u16) + 1) as u32) << 16u32 | ((u1 & 0x3F) as u32) << 10u32 | (u2
        & 0x3FF) as u32
}

/// The character that UTF-16 finds in the unit `u1` and the unit after it,
/// where there is one, with the number of units it takes.
pub open spec fn utf16_units(u1: u16, u2: Option<u16>) -> Option<(char, nat)> {
    if is_low_surrogate(u1) {
        None
    } else if !is_high_surrogate(u1) {
        Some((u1 as u32 as char, 1))
    } else {
        match u2 {
            Some(u2) => if is_low_surrogate(u2) {
                Some((pair_value(u1, u2) as char, 2))
            } else {
                None
            },
            None => None,
        }
    }
}

/// The character that UTF-16 finds at the front of the units `s`.
pub open spec fn utf16_first(s: Seq<u16>) -> Option<(char, nat)> {
    if s.len() == 0 {
        None
    } else {
        utf16_units(s[0], if s.len() >= 2 { Some(s[1]) } else { None })
    }
}

/// The unit made of bytes `hi` and `lo`, the high byte first.
pub open spec fn unit16(hi: u8, lo: u8) -> u16 {
    (hi as u16) << 8u16 | lo as u16
}

/// The `i`-th big-endian unit of the bytes `s`.
pub open spec fn be_unit16(s: Seq<u8>, i: int) -> u16 {
    unit16(s[2 * i], s[2 * i + 1])
}

/// The `i`-th little-endian unit of the bytes `s`.
pub open spec fn le_unit16(s: Seq<u8>, i: int) -> u16 {
    unit16(s[2 * i + 1], s[2 * i])
}

/// A match counted in units, counted in bytes.
pub open spec fn in_bytes16(found: Option<(char, nat)>) -> Option<(char, nat)> {
    match found {
        Some((c, n)) => Some((c, 2 * n)),
        None => None,
    }
}

/// The character that UTF-16 finds at the front of big-endian bytes.
pub open spec fn utf16be_first(s: Seq<u8>) -> Option<(char, nat)> {
    if s.len() < 2 {
        None
    } else {
        in_bytes16(
            utf16_units(be_unit16(s, 0), if s.len() >= 4 { Some(be_unit16(s, 1)) } else { None }),
        )
    }
}

/// The character that UTF-16 finds at the front of little-endian bytes.
pub open spec fn utf16le_first(s: Seq<u8>) -> Option<(char, nat)> {
    if s.len() < 2 {
        None
    } else {
        in_bytes16(
            utf16_units(le_unit16(s, 0), if s.len() >= 4 { Some(le_unit16(s, 1)) } else { None }),
        )
    }
}

/// The high surrogate of a character beyond 0xFFFF.
pub open spec fn high_surrogate_of(c: char) -> u16 {
    (0xD800u32 | (((c as u32) - 0x10000) as u32 >> 10u32)) as u16
}

/// The low surrogate of a character beyond 0xFFFF.
pub open spec fn low_surrogate_of(c: char) -> u16 {
    (0xDC00u32 | (((c as u32) - 0x10000) as u32 & 0x3FF)) as u16
}

/// The UTF-16 units of `c`: one unit up to 0xFFFF, a surrogate pair beyond.
pub open spec fn utf16_encode(c: char) -> Seq<u16> {
    if (c as u32) < 0x10000 {
        seq![c as u32 as u16]
    } else {
        seq![high_surrogate_of(c), low_surrogate_of(c)]
    }
}

/// The bytes of a unit, the high byte first.
pub open spec fn be_bytes16(u: u16) -> Seq<u8> {
    seq![(u >> 8u16) as u8, (u & 0xFF) as u8]
}

/// The bytes of a unit, the low byte first.
pub open spec fn le_bytes16(u: u16) -> Seq<u8> {
    seq![(u & 0xFF) as u8, (u >> 8u16) as u8]
}

/// The UTF-16 units of `c` as big-endian bytes.
pub open spec fn utf16be_encode(c: char) -> Seq<u8> {
    let u = utf16_encode(c);
    if u.len() == 1 {
        be_bytes16(u[0])
    } else {
        be_bytes16(u[0]) + be_bytes16(u[1])
    }
}

/// The UTF-16 units of `c` as little-endian bytes.
pub open spec fn utf16le_encode(c: char) -> Seq<u8> {
    let u = utf16_encode(c);
    if u.len() == 1 {
        le_bytes16(u[0])
    } else {
        le_bytes16(u[0]) + le_bytes16(u[1])
    }
}

proof fn lemma_single_unit(v: u32)
    requires
        v < 0x10000,
        !(0xD800 <= v <= 0xDFFF),
    ensures
        !is_low_surrogate(v as u16),
        !is_high_surrogate(v as u16),
{
    let u = v as u16;
    assert(u & 0xFC00 != 0xDC00 && u & 0xFC00 != 0xD800) by (bit_vector)
        requires
            u == v as u16,
            v < 0x10000,
            !(0xD800 <= v <= 0xDFFF),
    ;
}

proof fn lemma_pair(w: u32)
    requires
        w <= 0xFFFFF,
    ensures
        is_high_surrogate((0xD800u32 | (w >> 10u32)) as u16),
        is_low_surrogate((0xDC00u32 | (w & 0x3FF)) as u16),
        pair_value((0xD800u32 | (w >> 10u32)) as u16, (0xDC00u32 | (w & 0x3FF)) as u16) == w
            + 0x10000,
{
    let hi = (0xD800u32 | (w >> 10u32)) as u16;
    let lo = (0xDC00u32 | (w & 0x3FF)) as u16;
    assert(hi & 0xFC00 == 0xD800 && lo & 0xFC00 == 0xDC00 && ((((hi & 0x3C0) >> 6u16) + 1) as u32)
        << 16u32 | ((hi & 0x3F) as u32) << 10u32 | (lo & 0x3FF) as u32 == w + 0x10000)
        by (bit_vector)
        requires
            w <= 0xFFFFF,
            hi == (0xD800u32 | (w >> 10u32)) as u16,
            lo == (0xDC00u32 | (w & 0x3FF)) as u16,
    ;
}

proof fn lemma_unit16_of_bytes(u: u16)
    ensures
        unit16((u >> 8u16) as u8, (u & 0xFF) as u8) == u,
{
    let hi = (u >> 8u16) as u8;
    let lo = (u & 0xFF) as u8;
    assert((hi as u16) << 8u16 | lo as u16 == u) by (bit_vector)
        requires
            hi == (u >> 8u16) as u8,
            lo == (u & 0xFF) as u8,
    ;
}

proof fn lemma_pair_encoding(u1: u16, u2: u16)
    requires
        is_high_surrogate(u1),
        is_low_surrogate(u2),
    ensures
        0x10000 <= pair_value(u1, u2) <= 0x10FFFF,
        (0xD800u32 | (((pair_value(u1, u2) - 0x10000) as u32) >> 10u32)) as u16 == u1,
        (0xDC00u32 | (((pair_value(u1, u2) - 0x10000) as u32) & 0x3FF)) as u16 == u2,
{
    let v = pair_value(u1, u2);
    assert(0x10000 <= v <= 0x10FFFF) by (bit_vector)
        requires
            v == ((((u1 & 0x3C0) >> 6u16) + 1) as u32) << 16u32 | ((u1 & 0x3F) as u32) << 10u32
                | (u2 & 0x3FF) as u32,
    ;
    let w = (v - 0x10000) as u32;
    assert((0xD800u32 | (w >> 10u32)) as u16 == u1 && (0xDC00u32 | (w & 0x3FF)) as u16 == u2)
        by (bit_vector)
        requires
            u1 & 0xFC00 == 0xD800,
            u2 & 0xFC00 == 0xDC00,
            v == ((((u1 & 0x3C0) >> 6u16) + 1) as u32) << 16u32 | ((u1 & 0x3F) as u32) << 10u32
                | (u2 & 0x3FF) as u32,
            w + 0x10000 == v,
    ;
}

proof fn lemma_bytes_of_unit16(a: u8, b: u8)
    ensures
        be_bytes16(unit16(a, b)) == seq![a, b],
        le_bytes16(unit16(b, a)) == seq![a, b],
{
    let u = unit16(a, b);
    let x = unit16(b, a);
    assert((u >> 8u16) as u8 == a && (u & 0xFF) as u8 == b && (x & 0xFF) as u8 == a && (x >> 8u16)
        as u8 == b) by (bit_vector)
        requires
            u == (a as u16) << 8u16 | b as u16,
            x == (b as u16) << 8u16 | a as u16,
    ;
    assert(be_bytes16(u) =~= seq![a, b]);
    assert(le_bytes16(x) =~= seq![a, b]);
}

/// What the rule accepts from one or two units is the encoding of the
/// character it gives.
proof fn lemma_units_encoding(u1: u16, u2: Option<u16>)
    ensures
        utf16_units(u1, u2) matches Some((c, n)) ==> {
            ||| n == 1 && utf16_encode(c) == seq![u1]
            ||| n == 2 && (u2 matches Some(x) && utf16_encode(c) == seq![u1, x])
        },
{
    if let Some((c, n)) = utf16_units(u1, u2) {
        if n == 1 {
            let v = u1 as u32;
            assert(!(0xD800 <= v <= 0xDFFF)) by (bit_vector)
                requires
                    v == u1 as u32,
                    u1 & 0xFC00 != 0xDC00,
                    u1 & 0xFC00 != 0xD800,
            ;
            assert(utf16_encode(c) =~= seq![u1]);
        } else {
            let x = u2->Some_0;
            lemma_pair_encoding(u1, x);
            assert(utf16_encode(c) =~= seq![u1, x]);
        }
    }
}

/// The units of `c` decode back to `c`, whatever unit follows a single one.
proof fn lemma_encode_units(c: char, next: Option<u16>)
    ensures
        1 <= utf16_encode(c).len() <= 2,
        utf16_encode(c).len() == 1 ==> utf16_units(utf16_encode(c)[0], next) == Some((c, 1nat)),
        utf16_encode(c).len() == 2 ==> utf16_units(utf16_encode(c)[0], Some(utf16_encode(c)[1]))
            == Some((c, 2nat)),
{
    let v = c as u32;
    vstd::utf8::char_is_scalar(c);
    if v < 0x10000 {
        lemma_single_unit(v);
        vstd::utf8::char_u32_cast(c, v as u16 as u32);
    } else {
        let w = (v - 0x10000) as u32;
        lemma_pair(w);
        vstd::utf8::char_u32_cast(c, v);
    }
}

/// Lone surrogates are rejected: a low surrogate first, and a high
/// surrogate that no low surrogate follows, at the end of the units too.
pub proof fn lemma_utf16_rejects_lone_surrogates(s: Seq<u16>)
    ensures
        s.len() > 0 && is_low_surrogate(s[0]) ==> utf16_first(s) is None,
        s.len() > 0 && is_high_surrogate(s[0]) && (s.len() < 2 || !is_low_surrogate(s[1]))
            ==> utf16_first(s) is None,
{
}

/// Classifies a first unit: `None` for a low surrogate, the character for a
/// unit outside the surrogates, and the unit itself for a high surrogate,
/// which needs a second unit.
fn decode_one(u: u16) -> (r: Option<Result<char, u16>>)
    ensures
        is_low_surrogate(u) ==> r is None,
        is_high_surrogate(u) ==> r == Some(Err::<char, u16>(u)),
        !is_low_surrogate(u) && !is_high_surrogate(u) ==> r == Some(Ok::<char, u16>(u as u32 as char)),
{
    if u & 0xFC00 == 0xDC00 {
        None
    } else if u & 0xFC00 == 0xD800 {
        Some(Err(u))
    } else {
        assert(!(0xD800 <= u <= 0xDFFF)) by (bit_vector)
            requires
                u & 0xFC00 != 0xDC00,
                u & 0xFC00 != 0xD800,
        ;
        Some(Ok(scalar_char(u as u32)))
    }
}

/// Completes a surrogate pair led by `u1` with the unit `u2`.
fn decode_two(u1: u16, u2: u16) -> (r: Option<char>)
    requires
        is_high_surrogate(u1),
    ensures
        is_low_surrogate(u2) ==> r == Some(pair_value(u1, u2) as char),
        !is_low_surrogate(u2) ==> r is None,
{
    if u2 & 0xFC00 == 0xDC00 {
        assert((u1 & 0x3C0) >> 6u16 <= 0xF) by (bit_vector);
        let v = ((((u1 & 0x3C0) >> 6u16) + 1) as u32) << 16u32 | ((u1 & 0x3F) as u32) << 10u32
            | (u2 & 0x3FF) as u32;
        assert(0x10000 <= v <= 0x10FFFF) by (bit_vector)
            requires
                v == ((((u1 & 0x3C0) >> 6u16) + 1) as u32) << 16u32 | ((u1 & 0x3F) as u32)
                    << 10u32 | (u2 & 0x3FF) as u32,
        ;
        Some(scalar_char(v))
    } else {
        None
    }
}

/// Decodes one UTF-16 encoded character from native 16-bit units.
pub fn utf16(src: &mut Cursor<u16>) -> (r: Result<char, DecodeError>)
    requires
        old(src).wf(),
    ensures
        decoded(utf16_first(old(src).rest()), DecodeError::Utf16, *old(src), *final(src), r),
{
    let u1 = match src.peek(0) {
        Some(u) => u,
        None => return Err(DecodeError::Utf16),
    };
    match decode_one(u1) {
        None => Err(DecodeError::Utf16),
        Some(Ok(c)) => {
            src.advance(1);
            Ok(c)
        },
        Some(Err(high)) => {
            let u2 = match src.peek(1) {
                Some(u) => u,
                None => return Err(DecodeError::Utf16),
            };
            match decode_two(high, u2) {
                Some(c) => {
                    src.advance(2);
                    Ok(c)
                },
                None => Err(DecodeError::Utf16),
            }
        },
    }
}

/// The unit made of the bytes `k` and `k + 1` after the position, in the
/// given byte order, where both are there.
fn peek_unit16(src: &Cursor<u8>, k: usize, big_endian: bool) -> (r: Option<u16>)
    requires
        src.wf(),
        k < usize::MAX,
    ensures
        k + 1 < src.rest().len() ==> r == Some(
            if big_endian {
                unit16(src.rest()[k as int], src.rest()[k + 1])
            } else {
                unit16(src.rest()[k + 1], src.rest()[k as int])
            },
        ),
        k + 1 >= src.rest().len() ==> r is None,
{
    let a = match src.peek(k) {
        Some(b) => b,
        None => return None,
    };
    let b = match src.peek(k + 1) {
        Some(b) => b,
        None => return None,
    };
    if big_endian {
        Some((a as u16) << 8u16 | b as u16)
    } else {
        Some((b as u16) << 8u16 | a as u16)
    }
}

/// Decodes one UTF-16 encoded character from bytes in the given order.
fn utf16_bytes(src: &mut Cursor<u8>, big_endian: bool, e: DecodeError) -> (r: Result<char, DecodeError>)
    requires
        old(src).wf(),
    ensures
        decoded(
            if big_endian {
                utf16be_first(old(src).rest())
            } else {
                utf16le_first(old(src).rest())
            },
            e,
            *old(src),
            *final(src),
            r,
        ),
{
    let u1 = match peek_unit16(src, 0, big_endian) {
        Some(u) => u,
        None => return Err(e),
    };
    match decode_one(u1) {
        None => Err(e),
        Some(Ok(c)) => {
            src.advance(2);
            Ok(c)
        },
        Some(Err(high)) => {
            let u2 = match peek_unit16(src, 2, big_endian) {
                Some(u) => u,
                None => return Err(e),
            };
            match decode_two(high, u2) {
                Some(c) => {
                    src.advance(4);
                    Ok(c)
                },
                None => Err(e),
            }
        },
    }
}

/// Decodes one UTF-16 encoded character from big-endian bytes.
pub fn utf16be(src: &mut Cursor<u8>) -> (r: Result<char, DecodeError>)
    requires
        old(src).wf(),
    ensures
        decoded(utf16be_first(old(src).rest()), DecodeError::Utf16Be, *old(src), *final(src), r),
{
    utf16_bytes(src, true, DecodeError::Utf16Be)
}

/// Decodes one UTF-16 encoded character from little-endian bytes.
pub fn utf16le(src: &mut Cursor<u8>) -> (r: Result<char, DecodeError>)
    requires
        old(src).wf(),
    ensures
        decoded(utf16le_first(old(src).rest()), DecodeError::Utf16Le, *old(src), *final(src), r),
{
    utf16_bytes(src, false, DecodeError::Utf16Le)
}

/// UTF-16 over native 16-bit units.
pub struct Utf16;

/// UTF-16 over bytes, the high byte of each unit first.
pub struct Utf16Be;

/// UTF-16 over bytes, the low byte of each unit first.
pub struct Utf16Le;

impl Encoding for Utf16 {
    type Unit = u16;

    open spec fn first(s: Seq<u16>) -> Option<(char, nat)> {
        utf16_first(s)
    }

    open spec fn encode(c: char) -> Seq<u16> {
        utf16_encode(c)
    }

    open spec fn can_encode(c: char) -> bool {
        true
    }

    open spec fn error() -> DecodeError {
        DecodeError::Utf16
    }

    proof fn lemma_first_len(s: Seq<u16>) {
    }

    proof fn lemma_round_trip(c: char, tail: Seq<u16>) {
        let e = utf16_encode(c);
        let s = e + tail;
        lemma_encode_units(c, if s.len() >= 2 { Some(s[1]) } else { None });
        assert(s[0] == e[0]);
        if e.len() == 2 {
            assert(s[1] == e[1]);
        }
    }

    proof fn lemma_only_encodings(s: Seq<u16>) {
        if s.len() > 0 {
            lemma_units_encoding(s[0], if s.len() >= 2 { Some(s[1]) } else { None });
            if let Some((c, n)) = utf16_first(s) {
                if n == 1 {
                    assert(s.take(1) =~= seq![s[0]]);
                } else {
                    assert(s.take(2) =~= seq![s[0], s[1]]);
                }
            }
        }
    }

    fn decode(src: &mut Cursor<u16>) -> (r: Result<char, DecodeError>) {
        utf16(src)
    }
}

impl Encoding for Utf16Be {
    type Unit = u8;

    open spec fn first(s: Seq<u8>) -> Option<(char, nat)> {
        utf16be_first(s)
    }

    open spec fn encode(c: char) -> Seq<u8> {
        utf16be_encode(c)
    }

    open spec fn can_encode(c: char) -> bool {
        true
    }

    open spec fn error() -> DecodeError {
        DecodeError::Utf16Be
    }

    proof fn lemma_first_len(s: Seq<u8>) {
    }

    proof fn lemma_round_trip(c: char, tail: Seq<u8>) {
        let u = utf16_encode(c);
        let e = utf16be_encode(c);
        let s = e + tail;
        lemma_encode_units(c, if s.len() >= 4 { Some(be_unit16(s, 1)) } else { None });
        lemma_unit16_of_bytes(u[0]);
        assert(s[0] == e[0] && s[1] == e[1]);
        if u.len() == 2 {
            lemma_unit16_of_bytes(u[1]);
            assert(s[2] == e[2] && s[3] == e[3]);
        }
    }

    proof fn lemma_only_encodings(s: Seq<u8>) {
        if s.len() >= 2 {
            lemma_units_encoding(
                be_unit16(s, 0),
                if s.len() >= 4 { Some(be_unit16(s, 1)) } else { None },
            );
            lemma_bytes_of_unit16(s[0], s[1]);
            if let Some((c, n)) = utf16be_first(s) {
                if n == 2 {
                    assert(s.take(2) =~= seq![s[0], s[1]]);
                } else {
                    lemma_bytes_of_unit16(s[2], s[3]);
                    assert(seq![s[0], s[1]] + seq![s[2], s[3]] =~= s.take(4));
                }
            }
        }
    }

    fn decode(src: &mut Cursor<u8>) -> (r: Result<char, DecodeError>) {
        utf16be(src)
    }
}

impl Encoding for Utf16Le {
    type Unit = u8;

    open spec fn first(s: Seq<u8>) -> Option<(char, nat)> {
        utf16le_first(s)
    }

    open spec fn encode(c: char) -> Seq<u8> {
        utf16le_encode(c)
    }

    open spec fn can_encode(c: char) -> bool {
        true
    }

    open spec fn error() -> DecodeError {
        DecodeError::Utf16Le
    }

    proof fn lemma_first_len(s: Seq<u8>) {
    }

    proof fn lemma_round_trip(c: char, tail: Seq<u8>) {
        let u = utf16_encode(c);
        let e = utf16le_encode(c);
        let s = e + tail;
        lemma_encode_units(c, if s.len() >= 4 { Some(le_unit16(s, 1)) } else { None });
        lemma_unit16_of_bytes(u[0]);
        assert(s[0] == e[0] && s[1] == e[1]);
        if u.len() == 2 {
            lemma_unit16_of_bytes(u[1]);
            assert(s[2] == e[2] && s[3] == e[3]);
        }
    }

    proof fn lemma_only_encodings(s: Seq<u8>) {
        if s.len() >= 2 {
            lemma_units_encoding(
                le_unit16(s, 0),
                if s.len() >= 4 { Some(le_unit16(s, 1)) } else { None },
            );
            lemma_bytes_of_unit16(s[0], s[1]);
            if let Some((c, n)) = utf16le_first(s) {
                if n == 2 {
                    assert(s.take(2) =~= seq![s[0], s[1]]);
                } else {
                    lemma_bytes_of_unit16(s[2], s[3]);
                    assert(seq![s[0], s[1]] + seq![s[2], s[3]] =~= s.take(4));
                }
            }
        }
    }

    fn decode(src: &mut Cursor<u8>) -> (r: Result<char, DecodeError>) {
        utf16le(src)
    }
}

} // verus!
