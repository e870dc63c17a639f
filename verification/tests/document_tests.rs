use notion_core::document::Document;
use notion_core::errors::ReplaceError;

#[test]
fn new_document_has_defaults() {
    let doc = Document::new();
    assert_eq!(doc.filename, "Untitled");
    assert!(doc.path.is_none());
    assert!(!doc.is_modified);
    assert_eq!(doc.cursor_position, 0);
    assert!(doc.selection.is_none());
    assert_eq!(doc.get_current_position(), (0, 0));
    assert_eq!(doc.get_line_count(), 1);
}

#[test]
fn from_file_keeps_bytes_verbatim() {
    let raw = "héllo\nwörld".as_bytes().to_vec();
    let doc = Document::from_file(raw.clone(), "/tmp/a.txt".to_string(), "a.txt".to_string(), "txt")
        .unwrap();
    assert_eq!(doc.content.bytes, raw);
    assert_eq!(doc.filename, "a.txt");
    assert_eq!(doc.path.as_deref(), Some("/tmp/a.txt"));
    assert!(!doc.is_modified);
}

#[test]
fn from_file_rejects_invalid_text() {
    let r = Document::from_file(vec![0xc3, 0x28], "/x".to_string(), "x".to_string(), "");
    assert!(r.is_err());
}

#[test]
fn save_round_trip_keeps_content_byte_identical() {
    // load, save with no edits in between: the bytes handed to the writer
    // are exactly the bytes that were read
    let raw = "héllo\nwörld".as_bytes().to_vec();
    let mut doc = Document::from_file(raw.clone(), "/tmp/a.txt".to_string(), "a.txt".to_string(),
        "txt").unwrap();
    let written = doc.content.bytes.clone();
    doc.mark_saved("/tmp/a.txt".to_string(), "a.txt".to_string());
    assert_eq!(written, raw);
    assert_eq!(doc.content.bytes, raw);
    assert!(!doc.is_modified);
}

#[test]
fn mark_saved_upgrades_missing_path() {
    let mut doc = Document::new();
    doc.mark_saved("/tmp/new.txt".to_string(), "new.txt".to_string());
    assert_eq!(doc.path.as_deref(), Some("/tmp/new.txt"));
    assert_eq!(doc.filename, "new.txt");
    assert!(!doc.is_modified);
}

#[test]
fn cursor_at_end_of_multibyte_buffer() {
    // "héllo\nwörld": cursor at the end is line 1, column 5 characters
    // (never the six bytes of "wörld")
    let raw = "héllo\nwörld".as_bytes().to_vec();
    let mut doc = Document::from_file(raw, "/t".to_string(), "t".to_string(), "").unwrap();
    doc.update_cursor_position_from_content();
    assert_eq!(doc.cursor_position, doc.content.bytes.len());
    assert_eq!(doc.get_current_position(), (1, 5));
}

#[test]
fn cursor_position_on_single_line() {
    let raw = "héllo".as_bytes().to_vec();
    let mut doc = Document::from_file(raw, "/t".to_string(), "t".to_string(), "").unwrap();
    doc.update_cursor_position_from_content();
    assert_eq!(doc.get_current_position(), (0, 5));
}

#[test]
fn find_text_selects_hit() {
    let mut doc = Document::from_file(b"abcabc".to_vec(), "/t".to_string(), "t".to_string(), "")
        .unwrap();
    assert_eq!(doc.find_text(&b"cab".to_vec()), Some(2));
    assert_eq!(doc.cursor_position, 2);
    assert_eq!(doc.selection, Some((2, 5)));
    assert_eq!(doc.get_current_position(), (0, 2));
}

#[test]
fn find_text_missing_changes_nothing() {
    let mut doc = Document::from_file(b"abcabc".to_vec(), "/t".to_string(), "t".to_string(), "")
        .unwrap();
    assert_eq!(doc.find_text(&b"zzz".to_vec()), None);
    assert_eq!(doc.cursor_position, 0);
    assert!(doc.selection.is_none());
}

#[test]
fn find_text_empty_needle_selects_empty_range_at_start() {
    let mut doc = Document::from_file(b"abc".to_vec(), "/t".to_string(), "t".to_string(), "")
        .unwrap();
    assert_eq!(doc.find_text(&Vec::new()), Some(0));
    assert_eq!(doc.selection, Some((0, 0)));
}

#[test]
fn replace_text_scenario() {
    // selection (0,3) over "abcdef", needle "abc", replacement "XY"
    let mut doc = Document::from_file(b"abcdef".to_vec(), "/t".to_string(), "t".to_string(), "")
        .unwrap();
    assert_eq!(doc.find_text(&b"abc".to_vec()), Some(0));
    assert_eq!(doc.selection, Some((0, 3)));
    assert!(doc.replace_text(&b"abc".to_vec(), &b"XY".to_vec()).is_ok());
    assert_eq!(doc.content.bytes, b"XYdef".to_vec());
    assert_eq!(doc.selection, Some((0, 2)));
    assert!(doc.is_modified);
    // cursor jumped to the end of the new content
    assert_eq!(doc.cursor_position, 5);
    assert_eq!(doc.get_current_position(), (0, 5));
}

#[test]
fn replace_text_mismatch_never_mutates() {
    let mut doc = Document::from_file(b"abcdef".to_vec(), "/t".to_string(), "t".to_string(), "")
        .unwrap();
    assert_eq!(doc.find_text(&b"abc".to_vec()), Some(0));
    // the buffer did not change, but the query did: strict match refuses
    let r = doc.replace_text(&b"abx".to_vec(), &b"ZZ".to_vec());
    assert!(matches!(r, Err(ReplaceError::Mismatch)));
    assert_eq!(doc.content.bytes, b"abcdef".to_vec());
    assert_eq!(doc.selection, Some((0, 3)));
    assert!(!doc.is_modified);
}

#[test]
fn replace_text_without_selection_is_refused() {
    let mut doc = Document::from_file(b"abcdef".to_vec(), "/t".to_string(), "t".to_string(), "")
        .unwrap();
    let r = doc.replace_text(&b"abc".to_vec(), &b"XY".to_vec());
    assert!(matches!(r, Err(ReplaceError::NoSelection)));
    assert_eq!(doc.content.bytes, b"abcdef".to_vec());
}

#[test]
fn text_width_counts_characters() {
    let doc = Document::new();
    assert_eq!(doc.text_width(&"wörld".as_bytes().to_vec()), 5);
    assert_eq!(doc.text_width(&b"plain".to_vec()), 5);
    assert_eq!(doc.text_width(&Vec::new()), 0);
}

#[test]
fn scroll_to_line_uses_approximate_height() {
    let mut doc = Document::from_file(b"a\nb\nc\nd".to_vec(), "/t".to_string(), "t".to_string(),
        "").unwrap();
    doc.scroll_to_line(2);
    assert_eq!(doc.current_line, 2);
    assert_eq!(doc.viewport.scroll_offset, 36);
}

#[test]
fn apply_scroll_delta_clamps_to_content() {
    let mut doc = Document::from_file(b"a\nb".to_vec(), "/t".to_string(), "t".to_string(), "")
        .unwrap();
    // two lines: the band is [0, 36]
    assert_eq!(doc.apply_scroll_delta(100), 36);
    assert_eq!(doc.apply_scroll_delta(-10), 26);
    assert_eq!(doc.apply_scroll_delta(-1000), 0);
    assert_eq!(doc.apply_scroll_delta(7), 7);
}

#[test]
fn syntax_hint_resolved_from_extension() {
    // the resolver maps the extension to the syntax's display name, not
    // the extension itself
    let doc = Document::from_file(b"fn main() {}".to_vec(), "/t/m.rs".to_string(),
        "m.rs".to_string(), "rs").unwrap();
    assert_eq!(doc.syntax_hint.as_deref(), Some("Rust"));
    let doc = Document::from_file(b"???".to_vec(), "/t/m.qqzz".to_string(), "m.qqzz".to_string(),
        "qqzz").unwrap();
    assert!(doc.syntax_hint.is_none());
}

#[test]
fn syntax_hint_depends_on_extension_alone() {
    // equal extensions give equal labels, whatever the path or content
    let a = Document::from_file(b"alpha".to_vec(), "/one/a.py".to_string(), "a.py".to_string(),
        "py").unwrap();
    let b = Document::from_file(b"beta\ngamma".to_vec(), "/other/b.py".to_string(),
        "b.py".to_string(), "py").unwrap();
    assert!(a.syntax_hint.is_some());
    assert_eq!(a.syntax_hint, b.syntax_hint);
}

#[test]
fn edit_range_marks_modified_and_recomputes_cursor() {
    let mut doc = Document::from_file("héllo\nwörld".as_bytes().to_vec(), "/t".to_string(),
        "t".to_string(), "").unwrap();
    doc.selection = Some((0, 1));
    // replace "wörld" (bytes 7..13) with "you"
    assert!(doc.edit_range(7, 13, &b"you".to_vec()).is_ok());
    assert_eq!(doc.content.bytes, "héllo\nyou".as_bytes().to_vec());
    assert!(doc.is_modified);
    assert!(doc.selection.is_none());
    assert_eq!(doc.cursor_position, doc.content.bytes.len());
    assert_eq!(doc.get_current_position(), (1, 3));
}

#[test]
fn edit_range_refuses_mid_character_range_unchanged() {
    let before = "héllo".as_bytes().to_vec();
    let mut doc = Document::from_file(before.clone(), "/t".to_string(), "t".to_string(), "")
        .unwrap();
    // offset 2 splits the two-byte character
    assert!(doc.edit_range(1, 2, &b"x".to_vec()).is_err());
    assert_eq!(doc.content.bytes, before);
    assert!(!doc.is_modified);
    assert_eq!(doc.cursor_position, 0);
}
