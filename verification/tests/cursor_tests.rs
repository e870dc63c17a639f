use notion_core::cursor::offset_of_position;
use notion_core::cursor::position_of;

#[test]
fn position_at_start_is_origin() {
    let content = b"abc\ndef".to_vec();
    assert_eq!(position_of(&content, 0), (0, 0));
}

#[test]
fn position_counts_newlines_before_offset() {
    let content = b"ab\ncd\nef".to_vec();
    assert_eq!(position_of(&content, 2), (0, 2));
    assert_eq!(position_of(&content, 3), (1, 0));
    assert_eq!(position_of(&content, 5), (1, 2));
    assert_eq!(position_of(&content, 6), (2, 0));
    assert_eq!(position_of(&content, 8), (2, 2));
}

#[test]
fn position_columns_are_characters_not_bytes() {
    let content = "héllo\nwörld".as_bytes().to_vec();
    // end of the buffer: second line, five characters of "wörld"
    let end = content.len();
    assert_eq!(position_of(&content, end), (1, 5));
    // just after "hé" (three bytes, two characters)
    assert_eq!(position_of(&content, 3), (0, 2));
}

#[test]
fn walking_line_and_column_recovers_every_boundary_offset() {
    let content = "héllo\nwörld".as_bytes().to_vec();
    let boundaries: Vec<usize> = vec![0, 1, 3, 4, 5, 6, 7, 8, 10, 11, 12, 13];
    for &o in boundaries.iter() {
        let (line, column) = position_of(&content, o);
        assert_eq!(offset_of_position(&content, line, column), Some(o));
    }
}

#[test]
fn walking_past_the_content_names_no_offset() {
    let content = b"ab\ncd".to_vec();
    // only two lines exist
    assert_eq!(offset_of_position(&content, 2, 0), None);
    // line 0 holds two characters, columns 0..=2
    assert_eq!(offset_of_position(&content, 0, 2), Some(2));
    assert_eq!(offset_of_position(&content, 0, 3), None);
    // line 1 ends with the content
    assert_eq!(offset_of_position(&content, 1, 2), Some(5));
    assert_eq!(offset_of_position(&content, 1, 3), None);
}

#[test]
fn position_of_offsets_walked_back_recover_the_offset() {
    // every boundary offset has a distinct line/column pair, so walking
    // the content by line then by column finds the offset again
    let content = "aé\nbü".as_bytes().to_vec();
    let boundaries: Vec<usize> = vec![0, 1, 3, 4, 5, 7];
    let mut seen: Vec<((usize, usize), usize)> = Vec::new();
    for &o in boundaries.iter() {
        let pos = position_of(&content, o);
        for &(other_pos, other_o) in seen.iter() {
            assert!(pos != other_pos, "offsets {} and {} collide", o, other_o);
        }
        seen.push((pos, o));
    }
}
