use axiomd::control::{addressed, frame, parse_header, reply, selected};

#[test]
fn a_command_frame_is_read_as_its_verb_and_length() {
    assert_eq!(parse_header(b"open 17"), Some(("open".to_owned(), 17)));
    assert_eq!(parse_header(b"eval 0\r"), Some(("eval".to_owned(), 0)));
    assert_eq!(parse_header(b"type +3"), Some(("type".to_owned(), 3)));
    assert_eq!(parse_header(b"quit"), None);
    assert_eq!(parse_header(b"open seventeen"), None);
    assert_eq!(parse_header(b"open -1"), None);
    assert_eq!(parse_header(b"\xff\xfe 3"), None);
}

#[test]
fn an_answer_travels_in_the_same_frame_with_its_length_in_bytes() {
    assert_eq!(reply(&Ok("4".to_owned())), b"ok 1\n4".to_vec());
    assert_eq!(reply(&Err("no such command: fly".to_owned())), b"err 20\nno such command: fly".to_vec());
    assert_eq!(reply(&Ok(String::new())), b"ok 0\n".to_vec());
    assert_eq!(frame("title", "é"), "title 2\né".as_bytes().to_vec());
}

#[test]
fn a_frame_reads_back_as_it_was_framed() {
    let framed = frame("eval", "document.title\nwith a newline");
    let at = framed.iter().position(|b| *b == b'\n').unwrap();
    let (verb, length) = parse_header(&framed[..at]).unwrap();
    assert_eq!(verb, "eval");
    assert_eq!(&framed[at + 1..], b"document.title\nwith a newline");
    assert_eq!(length, framed.len() - at - 1);
}

#[test]
fn a_command_goes_to_the_window_picked_or_else_the_newest() {
    assert_eq!(addressed(None, 3), Ok(2));
    assert_eq!(addressed(Some(0), 3), Ok(0));
    assert_eq!(addressed(Some(3), 3), Err("window 3 has closed".to_owned()));
    assert_eq!(addressed(None, 0), Err("no window is open".to_owned()));
}

#[test]
fn only_an_open_window_can_be_picked() {
    assert_eq!(selected(1, 2), Ok(1));
    assert_eq!(selected(2, 2), Err("no window 2: 2 are open".to_owned()));
    assert_eq!(selected(0, 0), Err("no window 0: 0 are open".to_owned()));
}
