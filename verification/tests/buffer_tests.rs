use notion_core::buffer::TextBuffer;
use notion_core::text::check_utf8;

#[test]
fn load_keeps_valid_text_verbatim() {
    let raw = "héllo\nwörld".as_bytes().to_vec();
    let buf = TextBuffer::load(raw.clone()).unwrap();
    assert_eq!(buf.bytes, raw);
}

#[test]
fn load_rejects_invalid_utf8() {
    assert!(TextBuffer::load(vec![0xff, 0x61]).is_err());
    assert!(TextBuffer::load(vec![0xc3]).is_err());
    assert!(TextBuffer::load(vec![0x80]).is_err());
}

#[test]
fn utf8_checker_handles_edge_encodings() {
    assert!(check_utf8(&Vec::new()));
    assert!(check_utf8(&"aé€\u{10348}".as_bytes().to_vec()));
    // overlong encoding of '/'
    assert!(!check_utf8(&vec![0xc0, 0xaf]));
    // overlong three-byte encoding
    assert!(!check_utf8(&vec![0xe0, 0x80, 0x80]));
    // surrogate half
    assert!(!check_utf8(&vec![0xed, 0xa0, 0x80]));
    // largest scalar value
    assert!(check_utf8(&vec![0xf4, 0x8f, 0xbf, 0xbf]));
    // one past the largest scalar value
    assert!(!check_utf8(&vec![0xf4, 0x90, 0x80, 0x80]));
    // truncated sequence
    assert!(!check_utf8(&vec![0xe2, 0x82]));
    // stray continuation byte after ascii
    assert!(!check_utf8(&vec![0x61, 0x80]));
}

#[test]
fn replace_range_splices_at_boundaries() {
    let mut buf = TextBuffer::load(b"abcdef".to_vec()).unwrap();
    let new_text = b"XY".to_vec();
    assert!(buf.replace_range(1, 3, &new_text).is_ok());
    assert_eq!(buf.bytes, b"aXYdef".to_vec());
}

#[test]
fn replace_range_refuses_mid_character_offsets() {
    let before = "é".as_bytes().to_vec();
    let mut buf = TextBuffer::load(before.clone()).unwrap();
    let new_text = b"x".to_vec();
    // offset 1 splits the two-byte character
    assert!(buf.replace_range(1, 2, &new_text).is_err());
    assert_eq!(buf.bytes, before);
    // inverted range
    assert!(buf.replace_range(2, 1, &new_text).is_err());
    // past the end
    assert!(buf.replace_range(0, 3, &new_text).is_err());
    assert_eq!(buf.bytes, before);
}

#[test]
fn line_count_counts_segments() {
    assert_eq!(TextBuffer::load(b"".to_vec()).unwrap().line_count(), 1);
    assert_eq!(TextBuffer::load(b"abc".to_vec()).unwrap().line_count(), 1);
    assert_eq!(TextBuffer::load(b"abc\n".to_vec()).unwrap().line_count(), 1);
    assert_eq!(TextBuffer::load(b"\n".to_vec()).unwrap().line_count(), 1);
    assert_eq!(TextBuffer::load(b"abc\ndef".to_vec()).unwrap().line_count(), 2);
    assert_eq!(TextBuffer::load(b"a\nb\nc\n".to_vec()).unwrap().line_count(), 3);
}

#[test]
fn slice_chars_counts_characters_not_bytes() {
    let buf = TextBuffer::load("héllo".as_bytes().to_vec()).unwrap();
    // "héllo" is six bytes; the first three bytes hold "hé"
    assert_eq!(buf.bytes.len(), 6);
    assert_eq!(buf.slice_chars(0, 3), 2);
    assert_eq!(buf.slice_chars(0, 6), 5);
    assert_eq!(buf.slice_chars(3, 3), 0);
}
