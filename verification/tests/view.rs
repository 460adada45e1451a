use axiomd::js::{as_js_object, as_js_string};
use axiomd::view::{DocumentView, RemoteImages, Shown};

#[test]
fn a_document_reaches_the_page_as_text_and_never_as_syntax() {
    assert_eq!(as_js_string("<p>plain</p>"), "\"<p>plain</p>\"");
    assert_eq!(
        as_js_string("a \"quote\" and a \\ backslash"),
        "\"a \\\"quote\\\" and a \\\\ backslash\"",
    );
    assert_eq!(as_js_string("one\ntwo\r\n"), "\"one\\ntwo\\r\\n\"");
    assert_eq!(as_js_string("tab\there"), "\"tab\\u0009here\"");
    assert_eq!(as_js_string("line\u{2028}separator\u{2029}"), "\"line\\u2028separator\\u2029\"");
    assert_eq!(as_js_string("it's"), "\"it's\"");
}

#[test]
fn the_remote_image_state_carries_a_documents_own_urls_as_data() {
    assert_eq!(as_js_object(&[]), "{}");
    assert_eq!(
        as_js_object(&[
            ("https://example.com/a.png".to_owned(), "axiomd://img-1/0".to_owned()),
            ("https://example.com/b.png".to_owned(), "".to_owned()),
        ]),
        "{\"https://example.com/a.png\":\"axiomd://img-1/0\",\
         \"https://example.com/b.png\":\"\"}",
    );
    assert_eq!(
        as_js_object(&[("\"},alert(1),{\"x".to_owned(), "y".to_owned())]),
        "{\"\\\"},alert(1),{\\\"x\":\"y\"}",
    );
}

#[test]
fn every_control_character_is_spelled_as_four_hexadecimal_digits() {
    assert_eq!(as_js_string("\u{0}\u{1f}\u{1b}"), "\"\\u0000\\u001f\\u001b\"");
    assert_eq!(as_js_string(""), "\"\"");
    assert_eq!(as_js_string("é ü"), "\"é ü\"");
}

fn sources(list: &[&str]) -> Vec<String> {
    list.iter().map(|s| s.to_string()).collect()
}

#[test]
fn load_all_offers_only_the_images_nobody_has_asked_for() {
    let mut images = RemoteImages::new();
    images.set_sources(sources(&["https://a/1.png", "https://a/2.png", "https://a/3.png"]));
    assert_eq!(images.unloaded_images(), sources(&["https://a/1.png", "https://a/2.png", "https://a/3.png"]));
    images.image_arrived("https://a/2.png", "axiomd://img-0/0".to_owned());
    assert!(images.has_image("https://a/2.png"));
    assert!(!images.has_image("https://a/1.png"));
    assert_eq!(images.unloaded_images(), sources(&["https://a/1.png", "https://a/3.png"]));
}

#[test]
fn an_image_that_failed_and_then_arrived_is_only_said_to_have_arrived() {
    let mut images = RemoteImages::new();
    images.image_failed("https://a/1.png", "refused.".to_owned());
    images.image_failed("https://a/1.png", "refused again.".to_owned());
    assert_eq!(images.remote_state(), "{loaded:{},failed:{\"https://a/1.png\":\"refused again.\"}}");
    images.image_arrived("https://a/1.png", "axiomd://img-3/0".to_owned());
    assert_eq!(
        images.remote_state(),
        "{loaded:{\"https://a/1.png\":\"axiomd://img-3/0\"},failed:{}}"
    );
}

#[test]
fn a_document_is_loaded_once_and_patched_ever_after() {
    let mut view = DocumentView::new();
    let first = view.show("axiomd://doc-0/", "/home/reader", "<p>one</p>".to_owned(), Vec::new(), "");
    assert_eq!(first, Shown::Load { uri: "axiomd://doc-0/".to_owned() });
    view.committed();
    // A render that arrives before the page has finished loading waits for it.
    let early = view.show("axiomd://doc-0/", "/home/reader", "<p>two</p>".to_owned(), Vec::new(), "");
    assert_eq!(early, Shown::Held);
    assert_eq!(view.finished(), Shown::Update { patch: Some("<p>two</p>".to_owned()) });
    // Every render after that is a patch, never a second load.
    let later = view.show("axiomd://doc-0/", "/home/reader", "<p>three</p>".to_owned(), Vec::new(), "");
    assert_eq!(later, Shown::Update { patch: Some("<p>three</p>".to_owned()) });
    assert_eq!(view.navigations(), 1);
    assert_eq!(view.root(), "/home/reader");
}

#[test]
fn another_document_is_loaded_at_the_section_asked_for_and_forgets_the_last_ones_images() {
    let mut view = DocumentView::new();
    view.show("axiomd://doc-0/", "/a", "x".to_owned(), sources(&["https://a/1.png"]), "");
    view.finished();
    assert_eq!(
        view.image_arrived("https://a/1.png", "axiomd://img-0/0".to_owned()),
        Shown::Update { patch: None }
    );
    let next = view.show("axiomd://doc-1/", "/b", "y".to_owned(), sources(&["https://b/2.png"]), "setup");
    assert_eq!(next, Shown::Load { uri: "axiomd://doc-1/#setup".to_owned() });
    assert!(!view.has_image("https://a/1.png"));
    assert_eq!(view.unloaded_images(), sources(&["https://b/2.png"]));
    assert_eq!(view.remote_state(), "{loaded:{},failed:{}}");
    assert_eq!(view.image_failed("https://b/2.png", "gone.".to_owned()), Shown::Held);
    assert_eq!(view.root(), "/b");
}
