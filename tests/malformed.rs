use somen_decode::{
    ascii, utf16, utf16be, utf16le, utf32, utf32_be, utf32_le, utf8, Cursor, DecodeError,
};

fn utf8_rejects(bytes: &[u8]) {
    let mut src = Cursor::new(bytes.to_vec());
    assert_eq!(utf8(&mut src), Err(DecodeError::Utf8), "{:02X?}", bytes);
    assert_eq!(src.position(), 0, "{:02X?}", bytes);
}

#[test]
fn utf8_overlong_forms() {
    utf8_rejects(&[0xC0, 0xAF]);
    utf8_rejects(&[0xC1, 0xBF]);
    utf8_rejects(&[0xE0, 0x80, 0xAF]);
    utf8_rejects(&[0xE0, 0x9F, 0xBF]);
    utf8_rejects(&[0xF0, 0x80, 0x80, 0xAF]);
    utf8_rejects(&[0xF0, 0x8F, 0xBF, 0xBF]);
}

#[test]
fn utf8_beyond_maximum() {
    utf8_rejects(&[0xF4, 0x90, 0x80, 0x80]);
    utf8_rejects(&[0xF5, 0x80, 0x80, 0x80]);
    utf8_rejects(&[0xFF]);
    let mut src = Cursor::new(vec![0xF4u8, 0x8F, 0xBF, 0xBF]);
    assert_eq!(utf8(&mut src), Ok('\u{10FFFF}'));
    assert_eq!(src.position(), 4);
}

#[test]
fn utf8_encoded_surrogates() {
    utf8_rejects(&[0xED, 0xA0, 0x80]);
    utf8_rejects(&[0xED, 0xBF, 0xBF]);
    let mut src = Cursor::new(vec![0xEDu8, 0x9F, 0xBF]);
    assert_eq!(utf8(&mut src), Ok('\u{D7FF}'));
}

#[test]
fn utf8_bad_continuation_bytes() {
    utf8_rejects(&[0x80]);
    utf8_rejects(&[0xBF, 0x41]);
    utf8_rejects(&[0xC3, 0x41]);
    utf8_rejects(&[0xC3, 0xC3]);
    utf8_rejects(&[0xE3, 0x81, 0x41]);
    utf8_rejects(&[0xE3, 0x81, 0xC0]);
    utf8_rejects(&[0xF0, 0x9F, 0x92, 0x41]);
    utf8_rejects(&[0xF0, 0x9F, 0x41, 0xAF]);
}

#[test]
fn utf8_truncated_sequences() {
    utf8_rejects(&[]);
    utf8_rejects(&[0xC3]);
    utf8_rejects(&[0xE3, 0x81]);
    utf8_rejects(&[0xF0, 0x9F, 0x92]);
}

#[test]
fn ascii_high_bytes() {
    for b in 0x80u8..=0xFF {
        let mut src = Cursor::new(vec![b]);
        assert_eq!(ascii(&mut src), Err(DecodeError::Ascii));
        assert_eq!(src.position(), 0);
    }
    for b in 0x00u8..=0x7F {
        let mut src = Cursor::new(vec![b]);
        assert_eq!(ascii(&mut src), Ok(b as char));
        assert_eq!(src.position(), 1);
    }
    let mut src: Cursor<u8> = Cursor::new(vec![]);
    assert_eq!(ascii(&mut src), Err(DecodeError::Ascii));
}

#[test]
fn utf16_lone_surrogates() {
    for units in [
        vec![0xDC00u16],
        vec![0xDFFF, 0x0041],
        vec![0xD800],
        vec![0xD800, 0x0041],
        vec![0xDBFF, 0xD800],
    ] {
        let mut src = Cursor::new(units.clone());
        assert_eq!(utf16(&mut src), Err(DecodeError::Utf16), "{:04X?}", units);
        assert_eq!(src.position(), 0);
    }
}

#[test]
fn utf16_byte_orders_lone_surrogates() {
    let mut src = Cursor::new(vec![0xDCu8, 0x00]);
    assert_eq!(utf16be(&mut src), Err(DecodeError::Utf16Be));
    assert_eq!(src.position(), 0);
    let mut src = Cursor::new(vec![0xD8u8, 0x00, 0x00, 0x41]);
    assert_eq!(utf16be(&mut src), Err(DecodeError::Utf16Be));
    assert_eq!(src.position(), 0);
    let mut src = Cursor::new(vec![0xD8u8, 0x00, 0xDC]);
    assert_eq!(utf16be(&mut src), Err(DecodeError::Utf16Be));
    assert_eq!(src.position(), 0);
    let mut src = Cursor::new(vec![0x00u8, 0xDC]);
    assert_eq!(utf16le(&mut src), Err(DecodeError::Utf16Le));
    assert_eq!(src.position(), 0);
    let mut src = Cursor::new(vec![0x00u8, 0xD8, 0x41, 0x00]);
    assert_eq!(utf16le(&mut src), Err(DecodeError::Utf16Le));
    assert_eq!(src.position(), 0);
    let mut src = Cursor::new(vec![0x41u8]);
    assert_eq!(utf16le(&mut src), Err(DecodeError::Utf16Le));
    assert_eq!(src.position(), 0);
}

#[test]
fn utf16_pairs_in_high_planes() {
    let mut src = Cursor::new(vec![0xD840u16, 0xDC00, 0xDBFF, 0xDFFF]);
    assert_eq!(utf16(&mut src), Ok('\u{20000}'));
    assert_eq!(utf16(&mut src), Ok('\u{10FFFF}'));
    assert!(src.is_at_end());
}

#[test]
fn utf32_out_of_range_values() {
    for v in [0xD800u32, 0xDBFF, 0xDC00, 0xDFFF, 0x110000, 0xFFFF_FFFF] {
        let mut src = Cursor::new(vec![v]);
        assert_eq!(utf32(&mut src), Err(DecodeError::Utf32));
        assert_eq!(src.position(), 0);
        let mut src = Cursor::new(v.to_be_bytes().to_vec());
        assert_eq!(utf32_be(&mut src), Err(DecodeError::Utf32Be));
        assert_eq!(src.position(), 0);
        let mut src = Cursor::new(v.to_le_bytes().to_vec());
        assert_eq!(utf32_le(&mut src), Err(DecodeError::Utf32Le));
        assert_eq!(src.position(), 0);
    }
    let mut src = Cursor::new(vec![0x00u8, 0x00, 0x41]);
    assert_eq!(utf32_be(&mut src), Err(DecodeError::Utf32Be));
    assert_eq!(src.position(), 0);
}
