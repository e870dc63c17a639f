use notion_core::buffer::TextBuffer;
use notion_core::document::Document;
use notion_core::ui::UiComponents;
use notion_core::viewport::ViewportState;
use notion_core::viewport::APPROX_LINE_HEIGHT;

#[test]
fn viewport_starts_at_top() {
    let vp = ViewportState::new();
    assert_eq!(vp.scroll_offset, 0);
}

#[test]
fn viewport_scroll_to_line_multiplies_by_height() {
    let mut vp = ViewportState::new();
    vp.scroll_to_line(0);
    assert_eq!(vp.scroll_offset, 0);
    vp.scroll_to_line(5);
    assert_eq!(vp.scroll_offset, 5 * APPROX_LINE_HEIGHT);
}

#[test]
fn viewport_delta_clamps_low_and_high() {
    let mut vp = ViewportState::new();
    // four lines: band [0, 72]
    assert_eq!(vp.apply_delta(-5, 4), 0);
    assert_eq!(vp.apply_delta(30, 4), 30);
    assert_eq!(vp.apply_delta(100, 4), 72);
    assert_eq!(vp.apply_delta(-20, 4), 52);
    assert_eq!(vp.apply_delta(i64::MIN, 4), 0);
    assert_eq!(vp.apply_delta(i64::MAX, 4), 72);
}

#[test]
fn viewport_clamp_after_content_shrank() {
    let mut vp = ViewportState::new();
    vp.scroll_to_line(10);
    vp.clamp_to(2);
    assert_eq!(vp.scroll_offset, 2 * APPROX_LINE_HEIGHT);
    vp.clamp_to(3);
    assert_eq!(vp.scroll_offset, 2 * APPROX_LINE_HEIGHT);
}

#[test]
fn gutter_width_in_digits() {
    assert_eq!(UiComponents::line_number_digits(0), 1);
    assert_eq!(UiComponents::line_number_digits(1), 1);
    assert_eq!(UiComponents::line_number_digits(9), 1);
    assert_eq!(UiComponents::line_number_digits(10), 2);
    assert_eq!(UiComponents::line_number_digits(99), 2);
    assert_eq!(UiComponents::line_number_digits(100), 3);
    assert_eq!(UiComponents::line_number_digits(12345), 5);
}

#[test]
fn displayed_position_is_one_based() {
    assert_eq!(UiComponents::displayed_position(0, 0), (1, 1));
    assert_eq!(UiComponents::displayed_position(3, 41), (4, 42));
}

#[test]
fn selection_size_is_in_characters() {
    let mut doc = Document::new();
    doc.content = TextBuffer::load("héllo".as_bytes().to_vec()).unwrap();
    assert_eq!(UiComponents::selection_size(&doc), 0);
    doc.selection = Some((0, 3));
    assert_eq!(UiComponents::selection_size(&doc), 2);
    doc.selection = Some((0, 6));
    assert_eq!(UiComponents::selection_size(&doc), 5);
}
