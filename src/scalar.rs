use crate::cursor::Cursor;
use vstd::prelude::*;

verus! {

/// A Unicode scalar value: at most 0x10FFFF and outside the surrogate range.
pub open spec fn is_scalar(v: int) -> bool {
    0 <= v <= 0x10FFFF && !(0xD800 <= v <= 0xDFFF)
}

/// Which decoder rejected its input.
#[derive(Clone, Copy, Debug, PartialEq, Eq, Structural)]
pub enum DecodeError {
    Ascii,
    Utf8,
    Utf16,
    Utf16Be,
    Utf16Le,
    Utf32,
    Utf32Be,
    Utf32Le,
}

/// Relies on `char::from_u32`: `Some` exactly for a scalar value, holding the
/// character of that value.
#[verifier::external_body]
pub(crate) fn char_from_u32(v: u32) -> (r: Option<char>)
    ensures
        r is Some <==> is_scalar(v as int),
        r matches Some(c) ==> c as u32 == v,
{
    char::from_u32(v)
}

/// The character of a value that is known to be a scalar value.
pub(crate) fn scalar_char(v: u32) -> (c: char)
    requires
        is_scalar(v as int),
    ensures
        c as u32 == v,
        c == v as char,
{
    match char_from_u32(v) {
        Some(c) => {
            proof {
                vstd::utf8::char_u32_cast(c, v);
            }
            c
        },
        None => '\0',
    }
}

/// What a character decoder owes its caller, given what the rules of its
/// encoding find at the front of the unread units: on a match, the character,
/// with the position moved past the units it took; otherwise the decoder's
/// error, with the position left where it was.
pub open spec fn decoded<T: Copy>(
    found: Option<(char, nat)>,
    e: DecodeError,
    before: Cursor<T>,
    after: Cursor<T>,
    r: Result<char, DecodeError>,
) -> bool {
    &&& after.wf()
    &&& after.units() == before.units()
    &&& match found {
        Some((c, n)) => r == Ok::<char, DecodeError>(c) && after.pos() == before.pos() + n,
        None => r == Err::<char, DecodeError>(e) && after.pos() == before.pos(),
    }
}

} // verus!
