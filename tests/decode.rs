use somen_decode::{
    ascii, utf16, utf16be, utf16le, utf32, utf32_be, utf32_le, utf8, Cursor, DecodeError,
};

#[test]
fn ascii_scenario() {
    let mut src = Cursor::new(vec![0x41u8, 0x24, 0x0A, 0x00, 0xA2]);
    assert_eq!(ascii(&mut src), Ok('A'));
    assert_eq!(ascii(&mut src), Ok('$'));
    assert_eq!(ascii(&mut src), Ok('\n'));
    assert_eq!(ascii(&mut src), Ok('\0'));
    assert_eq!(src.position(), 4);
    assert_eq!(ascii(&mut src), Err(DecodeError::Ascii));
    assert_eq!(src.position(), 4);
    assert_eq!(src.peek(0), Some(0xA2));
}

#[test]
fn utf8_scenario() {
    let bytes = vec![
        0x41u8, 0xC3, 0x85, 0xE3, 0x81, 0x82, 0xF0, 0x9F, 0x92, 0xAF, 0xC0, 0xAF,
    ];
    let mut src = Cursor::new(bytes);
    assert_eq!(utf8(&mut src), Ok('A'));
    assert_eq!(src.position(), 1);
    assert_eq!(utf8(&mut src), Ok('\u{C5}'));
    assert_eq!(src.position(), 3);
    assert_eq!(utf8(&mut src), Ok('\u{3042}'));
    assert_eq!(src.position(), 6);
    assert_eq!(utf8(&mut src), Ok('\u{1F4AF}'));
    assert_eq!(src.position(), 10);
    assert_eq!(utf8(&mut src), Err(DecodeError::Utf8));
    assert_eq!(src.position(), 10);
    assert_eq!(src.peek(0), Some(0xC0));
    assert_eq!(src.peek(1), Some(0xAF));
}

#[test]
fn utf16_scenario() {
    let units = vec![
        0xD834u16, 0xDD1E, 0x004D, 0x0075, 0x0073, 0x0069, 0x0063, 0xD834,
    ];
    let mut src = Cursor::new(units);
    assert_eq!(utf16(&mut src), Ok('\u{1D11E}'));
    assert_eq!(src.position(), 2);
    assert_eq!(utf16(&mut src), Ok('M'));
    assert_eq!(utf16(&mut src), Ok('u'));
    assert_eq!(utf16(&mut src), Ok('s'));
    assert_eq!(utf16(&mut src), Ok('i'));
    assert_eq!(utf16(&mut src), Ok('c'));
    assert_eq!(utf16(&mut src), Err(DecodeError::Utf16));
    assert_eq!(src.position(), 7);
}

#[test]
fn utf16be_scenario() {
    let bytes = vec![
        0xD8u8, 0x34, 0xDD, 0x1E, 0x00, 0x4D, 0x00, 0x75, 0x00, 0x73, 0x00, 0x69, 0x00, 0x63, 0xD8,
        0x34,
    ];
    let mut src = Cursor::new(bytes);
    assert_eq!(utf16be(&mut src), Ok('\u{1D11E}'));
    assert_eq!(src.position(), 4);
    assert_eq!(utf16be(&mut src), Ok('M'));
    assert_eq!(utf16be(&mut src), Ok('u'));
    assert_eq!(utf16be(&mut src), Ok('s'));
    assert_eq!(utf16be(&mut src), Ok('i'));
    assert_eq!(utf16be(&mut src), Ok('c'));
    assert_eq!(utf16be(&mut src), Err(DecodeError::Utf16Be));
    assert_eq!(src.position(), 14);
}

#[test]
fn utf16le_scenario() {
    let bytes = vec![
        0x34u8, 0xD8, 0x1E, 0xDD, 0x4D, 0x00, 0x75, 0x00, 0x73, 0x00, 0x69, 0x00, 0x63, 0x00, 0x34,
        0xD8,
    ];
    let mut src = Cursor::new(bytes);
    assert_eq!(utf16le(&mut src), Ok('\u{1D11E}'));
    assert_eq!(utf16le(&mut src), Ok('M'));
    assert_eq!(utf16le(&mut src), Ok('u'));
    assert_eq!(utf16le(&mut src), Ok('s'));
    assert_eq!(utf16le(&mut src), Ok('i'));
    assert_eq!(utf16le(&mut src), Ok('c'));
    assert_eq!(utf16le(&mut src), Err(DecodeError::Utf16Le));
    assert_eq!(src.position(), 14);
}

#[test]
fn utf32_scenario() {
    let mut src = Cursor::new(vec![0x41u32, 0xC5, 0x3042, 0x1F4AF, 0x110000]);
    assert_eq!(utf32(&mut src), Ok('A'));
    assert_eq!(utf32(&mut src), Ok('\u{C5}'));
    assert_eq!(utf32(&mut src), Ok('\u{3042}'));
    assert_eq!(utf32(&mut src), Ok('\u{1F4AF}'));
    assert_eq!(utf32(&mut src), Err(DecodeError::Utf32));
    assert_eq!(src.position(), 4);
}

#[test]
fn utf32_be_scenario() {
    let bytes = vec![
        0x00u8, 0x00, 0x00, 0x41, 0x00, 0x00, 0x00, 0xC5, 0x00, 0x00, 0x30, 0x42, 0x00, 0x01, 0xF4,
        0xAF, 0x00, 0x11, 0x00, 0x00,
    ];
    let mut src = Cursor::new(bytes);
    assert_eq!(utf32_be(&mut src), Ok('A'));
    assert_eq!(utf32_be(&mut src), Ok('\u{C5}'));
    assert_eq!(utf32_be(&mut src), Ok('\u{3042}'));
    assert_eq!(utf32_be(&mut src), Ok('\u{1F4AF}'));
    assert_eq!(utf32_be(&mut src), Err(DecodeError::Utf32Be));
    assert_eq!(src.position(), 16);
}

#[test]
fn utf32_le_scenario() {
    let bytes = vec![
        0x41u8, 0x00, 0x00, 0x00, 0xC5, 0x00, 0x00, 0x00, 0x42, 0x30, 0x00, 0x00, 0xAF, 0xF4, 0x01,
        0x00, 0x00, 0x00, 0x11, 0x00,
    ];
    let mut src = Cursor::new(bytes);
    assert_eq!(utf32_le(&mut src), Ok('A'));
    assert_eq!(utf32_le(&mut src), Ok('\u{C5}'));
    assert_eq!(utf32_le(&mut src), Ok('\u{3042}'));
    assert_eq!(utf32_le(&mut src), Ok('\u{1F4AF}'));
    assert_eq!(utf32_le(&mut src), Err(DecodeError::Utf32Le));
    assert_eq!(src.position(), 16);
}
