use axiomd::editor::{caret_target, marker_position, source_line};

#[test]
fn a_markers_byte_offset_becomes_the_character_it_is() {
    let source = "- [ ] a\n- [ ] b\n";
    assert_eq!(marker_position(source, 3), Some(3));
    let accented = "é\n- [ ] b\n";
    // `é` is two bytes and one character, so the box one line down is one place to
    // the left in the buffer.
    assert_eq!(marker_position(accented, 6), Some(5));
    assert_eq!(marker_position(accented, 1), None, "the middle of a character");
    assert_eq!(marker_position(accented, accented.len()), None, "nothing there to replace");
    assert_eq!(marker_position(accented, accented.len() + 5), None);
}

#[test]
fn the_caret_goes_to_the_line_asked_for_and_never_past_the_last() {
    assert_eq!(caret_target(1, 10), 0);
    assert_eq!(caret_target(7, 10), 6);
    assert_eq!(caret_target(40, 10), 9);
    assert_eq!(caret_target(0, 10), 0);
    assert_eq!(source_line(0), 1);
    assert_eq!(source_line(41), 42);
    assert_eq!(source_line(i32::MAX), i32::MAX as u32);
}
