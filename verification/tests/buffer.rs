use cyberls::document::{ChangeEvent, FullTextDocument};
use cyberls::edits::get_tree_edits;
use cyberls::line_index::compute_line_offsets;
use cyberls::position::{get_wellformed_range, Position, Range};

fn doc(text: &str) -> FullTextDocument {
    FullTextDocument::new(
        "file:///a.cy".to_string(),
        "cyber".to_string(),
        1,
        text.to_string(),
    )
}

#[test]
fn line_offsets_of_plain_text() {
    let v = compute_line_offsets(&"ab\ncd\ne".to_string(), true, None);
    assert_eq!(v, vec![0, 3, 6]);
}

#[test]
fn line_offsets_with_crlf_and_cr() {
    let v = compute_line_offsets(&"a\r\nb\rc\n".to_string(), true, None);
    assert_eq!(v, vec![0, 3, 5, 7]);
}

#[test]
fn line_offsets_with_base_offset() {
    let v = compute_line_offsets(&"x\ny".to_string(), true, Some(10));
    assert_eq!(v, vec![10, 12]);
    let w = compute_line_offsets(&"x\ny".to_string(), false, Some(10));
    assert_eq!(w, vec![12]);
}

#[test]
fn offset_at_basic_positions() {
    let mut d = doc("ab\ncd\ne");
    assert_eq!(d.offset_at(Position::new(0, 0)), 0);
    assert_eq!(d.offset_at(Position::new(1, 1)), 4);
    // A column past the line end stops at the next line's start.
    assert_eq!(d.offset_at(Position::new(0, 99)), 3);
    // A line past the last clamps to the last line.
    assert_eq!(d.offset_at(Position::new(9, 0)), 6);
    assert_eq!(d.offset_at(Position::new(9, 99)), 7);
}

#[test]
fn position_at_basic_offsets() {
    let mut d = doc("ab\ncd\ne");
    assert_eq!(d.position_at(0), Position::new(0, 0));
    assert_eq!(d.position_at(4), Position::new(1, 1));
    // Offsets beyond the content clamp to its end.
    assert_eq!(d.position_at(100), Position::new(2, 1));
}

#[test]
fn offset_position_round_trip_everywhere() {
    let mut d = doc("ab\r\ncd\ne\n");
    for x in 0..=9u32 {
        let p = d.position_at(x);
        assert_eq!(d.offset_at(p) as u32, x);
    }
}

#[test]
fn position_offset_round_trip_within_lines() {
    let mut d = doc("ab\ncd\ne");
    for (line, character) in [(0, 0), (0, 2), (1, 0), (1, 2), (2, 0), (2, 1)] {
        let p = Position::new(line, character);
        let off = d.offset_at(p);
        assert_eq!(d.position_at(off as u32), p);
    }
}

#[test]
fn line_count_counts_trailing_break() {
    let mut d = doc("a\nb\n");
    assert_eq!(d.line_count(), 3);
    let mut e = doc("");
    assert_eq!(e.line_count(), 1);
}

#[test]
fn incremental_update_splices_text() {
    let mut d = doc("ab\ncd");
    let change = ChangeEvent {
        range: Some(Range::new(Position::new(1, 0), Position::new(1, 1))),
        range_length: Some(1),
        text: "XY".to_string(),
    };
    d.update(vec![change], 2);
    assert_eq!(d.get_content(), "ab\nXYd");
    assert_eq!(d.version(), 2);
}

#[test]
fn full_update_replaces_text() {
    let mut d = doc("ab\ncd");
    let change = ChangeEvent {
        range: None,
        range_length: None,
        text: "new text".to_string(),
    };
    d.update(vec![change], 3);
    assert_eq!(d.get_content(), "new text");
    assert_eq!(d.version(), 3);
}

#[test]
fn update_with_no_changes_keeps_version() {
    let mut d = doc("ab");
    d.update(vec![], 9);
    assert_eq!(d.version(), 1);
    assert_eq!(d.get_content(), "ab");
}

#[test]
fn reversed_range_is_normalized() {
    let r = Range::new(Position::new(2, 0), Position::new(1, 3));
    let w = get_wellformed_range(r);
    assert_eq!(w.start, Position::new(1, 3));
    assert_eq!(w.end, Position::new(2, 0));

    let mut d = doc("ab\ncd\nef");
    let change = ChangeEvent {
        range: Some(Range::new(Position::new(1, 1), Position::new(0, 1))),
        range_length: None,
        text: "-".to_string(),
    };
    d.update(vec![change], 2);
    assert_eq!(d.get_content(), "a-d\nef");
}

#[test]
fn sequence_of_changes_applies_in_order() {
    let mut d = doc("abc");
    let c1 = ChangeEvent {
        range: Some(Range::new(Position::new(0, 1), Position::new(0, 2))),
        range_length: Some(1),
        text: "XX".to_string(),
    };
    let c2 = ChangeEvent {
        range: Some(Range::new(Position::new(0, 0), Position::new(0, 1))),
        range_length: Some(1),
        text: "".to_string(),
    };
    d.update(vec![c1, c2], 2);
    assert_eq!(d.get_content(), "XXc");
}

#[test]
fn byte_offsets_count_utf8_widths() {
    let d = doc("aé€b");
    // 'a' is one byte, 'é' two, '€' three.
    let (s, e) = d.transform_offset_to_byte_offset(1, 3);
    assert_eq!(s, 1);
    assert_eq!(e, 6);
}

#[test]
fn edit_descriptor_for_insertion() {
    let mut d = doc("ab\ncd");
    let change = ChangeEvent {
        range: Some(Range::new(Position::new(1, 1), Position::new(1, 1))),
        range_length: Some(0),
        text: "Z".to_string(),
    };
    let e = get_tree_edits(&change, &mut d, 2).expect("descriptor expected");
    assert_eq!(d.get_content(), "ab\ncZd");
    assert_eq!(e.start_byte, 4);
    assert_eq!(e.old_end_byte, 4);
    // Inserting one one-byte character moves the end by exactly one byte.
    assert_eq!(e.new_end_byte, e.old_end_byte + 1);
    assert_eq!(e.start_position.row, 1);
    assert_eq!(e.start_position.column, 1);
    assert_eq!(e.new_end_position.row, 1);
    assert_eq!(e.new_end_position.column, 2);
}

#[test]
fn edit_descriptor_for_replacement_across_lines() {
    let mut d = doc("ab\ncd\nef");
    let change = ChangeEvent {
        range: Some(Range::new(Position::new(0, 1), Position::new(2, 1))),
        range_length: Some(6),
        text: "--".to_string(),
    };
    let e = get_tree_edits(&change, &mut d, 2).expect("descriptor expected");
    assert_eq!(d.get_content(), "a--f");
    assert_eq!(e.start_byte, 1);
    assert_eq!(e.old_end_byte, 7);
    assert_eq!(e.new_end_byte, 3);
    assert_eq!(e.old_end_position.row, 2);
    assert_eq!(e.old_end_position.column, 1);
    assert_eq!(e.new_end_position.row, 0);
    assert_eq!(e.new_end_position.column, 3);
}

#[test]
fn full_change_yields_no_descriptor() {
    let mut d = doc("ab");
    let change = ChangeEvent {
        range: None,
        range_length: None,
        text: "whole".to_string(),
    };
    let e = get_tree_edits(&change, &mut d, 2);
    assert!(e.is_none());
    // The document is untouched: the caller must apply the change and
    // reparse from scratch.
    assert_eq!(d.get_content(), "ab");
}

#[test]
fn update_full_returns_snapshot() {
    let mut d = doc("ab");
    let change = ChangeEvent {
        range: None,
        range_length: None,
        text: "xyz".to_string(),
    };
    let snap = d.update_full(vec![change], 5);
    assert_eq!(snap.get_content(), "xyz");
    assert_eq!(snap.version(), 5);
    assert_eq!(d.get_content(), "xyz");
}

#[test]
fn change_classification() {
    let incremental = ChangeEvent {
        range: Some(Range::new(Position::new(0, 0), Position::new(0, 0))),
        range_length: Some(0),
        text: String::new(),
    };
    let full = ChangeEvent {
        range: None,
        range_length: None,
        text: String::new(),
    };
    // Classification goes by the presence of a range alone: an event with
    // no range is full even when a range length accompanies it.
    let odd = ChangeEvent {
        range: None,
        range_length: Some(3),
        text: String::new(),
    };
    assert!(FullTextDocument::is_incremental(&incremental));
    assert!(!FullTextDocument::is_full(&incremental));
    assert!(FullTextDocument::is_full(&full));
    assert!(!FullTextDocument::is_incremental(&odd));
    assert!(FullTextDocument::is_full(&odd));
}

#[test]
fn rangeless_event_with_length_replaces_content() {
    let mut d = doc("ab");
    let odd = ChangeEvent {
        range: None,
        range_length: Some(2),
        text: "whole".to_string(),
    };
    d.update(vec![odd], 2);
    assert_eq!(d.get_content(), "whole");
}
