use axiomd::remote::{is_loadable, judged, load, readable, requestable, too_large, Scratch};

#[test]
fn only_a_real_remote_image_is_something_the_app_will_go_and_get() {
    assert!(is_loadable("https://example.com/a.png"));
    assert!(is_loadable("http://example.com/a.png"));
    assert!(is_loadable("//example.com/a.png"));
    assert!(is_loadable("HTTPS://EXAMPLE.COM/A.PNG"));

    for refused in [
        "file:///etc/passwd",
        "data:image/svg+xml;base64,PHN2Zy8+",
        "javascript:alert(1)",
        "ftp://example.com/a.png",
        "/etc/passwd",
        "",
    ] {
        assert!(!is_loadable(refused), "{refused} would have been fetched");
    }
}

#[test]
fn a_protocol_relative_source_is_requested_over_https() {
    assert_eq!(requestable("//example.com/a.png"), "https://example.com/a.png");
    assert_eq!(requestable("http://example.com/a.png"), "http://example.com/a.png");
}

#[test]
fn requesting_a_source_that_names_its_scheme_changes_nothing() {
    assert_eq!(requestable("https://example.com/b.png"), "https://example.com/b.png");
    assert_eq!(requestable("images/c.png"), "images/c.png");
}

#[test]
fn a_scratch_file_is_written_where_it_was_put() {
    let scratch = Scratch::new("/tmp/axiomd-image-7");
    assert_eq!(scratch.destination(), "/tmp/axiomd-image-7");
}

#[test]
fn a_message_from_the_network_is_said_as_a_sentence() {
    assert_eq!(readable("connection refused"), "connection refused.");
    assert_eq!(readable(""), "This image could not be loaded.");
}

#[test]
fn an_image_is_kept_only_when_it_is_an_image() {
    let fine = judged(Some("image/png"), vec![0x89, 0x50, 0x4e, 0x47]).expect("an image");
    assert_eq!(fine.body, vec![0x89, 0x50, 0x4e, 0x47]);
    assert_eq!(fine.content_type, "image/png");
    assert_eq!(
        judged(None, vec![1, 2, 3]),
        Err("That address answered with nothing.".to_owned())
    );
    assert_eq!(
        judged(Some("text/html"), b"<html>".to_vec()),
        Err("That address answered with text/html, which is not an image.".to_owned())
    );
    assert_eq!(
        judged(Some(""), b"x".to_vec()),
        Err("That address answered with no content type, which is not an image.".to_owned())
    );
    assert_eq!(
        judged(Some("image/gif"), Vec::new()),
        Err("That address answered with an empty image.".to_owned())
    );
}

#[test]
fn a_download_past_the_largest_image_is_cancelled() {
    assert!(!too_large(64 * 1024 * 1024));
    assert!(too_large(64 * 1024 * 1024 + 1));
}

#[test]
fn the_reader_is_answered_exactly_once() {
    let mut answer = axiomd::remote::Answer::new();
    assert!(answer.give(), "the first way a fetch ends tells the reader");
    assert!(!answer.give(), "a failure after the reply was told as well");
    assert!(!answer.give());
}

#[test]
fn a_scheme_without_its_colon_or_with_several_is_not_a_remote_address() {
    assert!(!is_loadable("http//x"), "a relative path was fetched");
    assert!(!is_loadable("http//example.com/a.png"));
    assert!(!is_loadable("https:::://x"));
    assert!(!is_loadable("https//example.com"));
    assert!(is_loadable("Https://example.com/a.png"));
}

#[test]
fn a_press_on_a_source_that_is_not_remote_is_answered_without_a_transfer() {
    assert_eq!(
        load("file:///home/reader/.ssh/id_ed25519"),
        Err("axiomd only loads images over http and https.".to_owned()),
    );
    assert_eq!(load("http//example.com/a.png"), Err("axiomd only loads images over http and https.".to_owned()));
    assert_eq!(load("https://example.com/a.png"), Ok("https://example.com/a.png".to_owned()));
}
