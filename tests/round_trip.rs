use somen_decode::{
    ascii, utf16, utf16be, utf16le, utf32, utf32_be, utf32_le, utf8, Cursor,
};

fn all_chars() -> impl Iterator<Item = char> {
    (0u32..=0x10FFFF).filter_map(char::from_u32)
}

#[test]
fn utf8_round_trip_every_scalar() {
    let mut buf = [0u8; 4];
    for c in all_chars() {
        let bytes = c.encode_utf8(&mut buf).as_bytes().to_vec();
        let n = bytes.len();
        let mut src = Cursor::new(bytes);
        assert_eq!(utf8(&mut src), Ok(c));
        assert_eq!(src.position(), n);
    }
}

#[test]
fn utf16_round_trip_every_scalar() {
    let mut buf = [0u16; 2];
    for c in all_chars() {
        let units = c.encode_utf16(&mut buf).to_vec();
        let n = units.len();
        let be: Vec<u8> = units.iter().flat_map(|u| u.to_be_bytes()).collect();
        let le: Vec<u8> = units.iter().flat_map(|u| u.to_le_bytes()).collect();
        let mut src = Cursor::new(units);
        assert_eq!(utf16(&mut src), Ok(c));
        assert_eq!(src.position(), n);
        let mut src = Cursor::new(be);
        assert_eq!(utf16be(&mut src), Ok(c));
        assert_eq!(src.position(), 2 * n);
        let mut src = Cursor::new(le);
        assert_eq!(utf16le(&mut src), Ok(c));
        assert_eq!(src.position(), 2 * n);
    }
}

#[test]
fn utf32_round_trip_every_scalar() {
    for c in all_chars() {
        let v = c as u32;
        let mut src = Cursor::new(vec![v]);
        assert_eq!(utf32(&mut src), Ok(c));
        let mut src = Cursor::new(v.to_be_bytes().to_vec());
        assert_eq!(utf32_be(&mut src), Ok(c));
        assert_eq!(src.position(), 4);
        let mut src = Cursor::new(v.to_le_bytes().to_vec());
        assert_eq!(utf32_le(&mut src), Ok(c));
        assert_eq!(src.position(), 4);
    }
}

#[test]
fn ascii_round_trip_every_ascii_char() {
    for c in (0u8..=0x7F).map(char::from) {
        let mut src = Cursor::new(vec![c as u8]);
        assert_eq!(ascii(&mut src), Ok(c));
    }
}

#[test]
fn cursor_peek_and_rewind() {
    let mut src = Cursor::new(vec![1u8, 2, 3]);
    assert_eq!(src.peek(2), Some(3));
    assert_eq!(src.peek(3), None);
    src.advance(2);
    assert_eq!(src.position(), 2);
    assert_eq!(src.peek(0), Some(3));
    assert_eq!(src.peek(1), None);
    src.set_position(1);
    assert_eq!(src.peek(0), Some(2));
    src.advance(2);
    assert!(src.is_at_end());
}
