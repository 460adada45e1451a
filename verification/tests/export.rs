use axiomd::export::{picture, picture_reference, report, Outcome, Picture};
use axiomd::paths::path_under;

#[test]
fn a_picture_is_named_by_what_comes_before_its_query_and_fragment() {
    assert_eq!(picture_reference("images/logo.png"), "images/logo.png");
    assert_eq!(picture_reference("images/logo.png?v=2#top"), "images/logo.png");
    assert_eq!(picture_reference("images/logo.png#x?y"), "images/logo.png");
    assert_eq!(picture_reference("?only"), "");
}

#[test]
fn a_picture_travels_only_if_it_is_the_documents_own() {
    let root = "/scratch/inner";
    let logo = path_under(root, &picture_reference("images/logo.png"));
    assert_eq!(
        picture(logo.as_deref(), Some(b"\x89PNG\r\n\x1a\n".to_vec())),
        Some(Picture { bytes: b"\x89PNG\r\n\x1a\n".to_vec(), content_type: "image/png".to_owned() }),
    );
    let secret = path_under(root, &picture_reference("../secret.txt"));
    assert_eq!(secret, None);
    assert_eq!(picture(secret.as_deref(), Some(b"credentials".to_vec())), None);
    let missing = path_under(root, "images/missing.png");
    assert_eq!(picture(missing.as_deref(), None), None);
}

#[test]
fn how_an_export_ended_is_said_beside_the_document() {

    assert_eq!(
        report(Outcome::Done(Some("/home/reader/notes.pdf".to_owned())), "Exported", "notes"),
        Some("Exported notes.pdf".to_owned())
    );
    assert_eq!(report(Outcome::Done(None), "Printed", "notes"), Some("Printed notes".to_owned()));
    assert_eq!(report(Outcome::Cancelled, "Printed", "notes"), None);
    assert_eq!(
        report(Outcome::Failed("the printer is offline".to_owned()), "Printed", "notes"),
        Some("Printed nothing \u{2014} the printer is offline".to_owned())
    );
}

#[test]
fn a_picture_with_a_space_in_its_name_is_still_found() {
    let root = "/scratch";
    let reference = picture_reference("my%20picture.png");
    let decoded = axiomd::links::decode(&reference).expect("a well-formed escape");
    let resolved = path_under(root, &decoded);
    assert_eq!(resolved.as_deref(), Some("/scratch/my picture.png"));
    assert_eq!(
        picture(resolved.as_deref(), Some(b"\x89PNG".to_vec())),
        Some(Picture { bytes: b"\x89PNG".to_vec(), content_type: "image/png".to_owned() }),
    );
}
