use axiomd::paths::path_under;
use axiomd::links::{before_fragment, contained, decode, follow, opens_in_a_browser, reached, split_fragment, Follow, Request, Route};

const HERE: &str = "axiomd://doc-3/";
const ROOT: &str = "/scratch/links";

/// Where a path under the folder really leads, as the filesystem would answer: the
/// files the folder holds lead to themselves, one symlink leads out of it, and
/// anything else is not there.
fn canonical(path: &str) -> Option<String> {
    let held = ["notes.md", "guide.markdown", "release notes.md", "report.pdf", "images/logo.png"];
    if held.iter().any(|name| format!("{ROOT}/{name}") == path) {
        return Some(path.to_owned());
    }
    if path == format!("{ROOT}/leak.md") {
        return Some("/etc/passwd".to_owned());
    }
    None
}

/// Follows a navigation as the window does: the policy, and for a link into the folder
/// the filesystem's answer about where it leads.
fn decided(here: &str, root: Option<&str>, target: &str, activated: bool, asked: Option<Request>) -> Follow {
    match follow(here, root, target, activated, asked) {
        Route::Decided(follow) => follow,
        Route::Reach { file, fragment } => {
            let real = canonical(&file);
            reached(contained(&file, real.as_deref(), Some(ROOT)), fragment)
        }
    }
}

fn following(target: &str) -> Follow {
    decided(HERE, Some(ROOT), target, true, None)
}

#[test]
fn a_relative_markdown_link_opens_that_document() {
    assert_eq!(
        following("axiomd://doc-3/notes.md"),
        Follow::Document { file: format!("{ROOT}/notes.md"), fragment: None },
    );
    assert_eq!(
        following("axiomd://doc-3/guide.markdown#setup"),
        Follow::Document { file: format!("{ROOT}/guide.markdown"), fragment: Some("setup".to_owned()) },
    );
    assert_eq!(
        following("axiomd://doc-3/release%20notes.md"),
        Follow::Document { file: format!("{ROOT}/release notes.md"), fragment: None },
    );
}

#[test]
fn an_anchor_in_this_document_is_left_to_the_view() {
    assert_eq!(following("axiomd://doc-3/#getting-started"), Follow::Stay);
    assert_eq!(following("axiomd://doc-3/"), Follow::Stay);
    assert_eq!(
        decided("axiomd://doc-3/#first", Some(ROOT), "axiomd://doc-3/#second", true, None),
        Follow::Stay,
    );
}

#[test]
fn a_link_in_an_untitled_document_reaches_nothing_on_disk() {
    assert_eq!(decided(HERE, None, "axiomd://doc-3/notes.md", true, None), Follow::Refuse);
    assert_eq!(decided(HERE, None, "axiomd://doc-3/report.pdf", true, None), Follow::Refuse);
    assert_eq!(
        decided(HERE, None, "https://example.com/", true, None),
        Follow::External { uri: "https://example.com/".to_owned() },
    );
    assert_eq!(decided(HERE, None, "axiomd://doc-3/#top", true, None), Follow::Stay);
}

#[test]
fn an_external_link_goes_to_the_browser_and_nowhere_else() {
    for uri in ["https://example.com/page", "http://example.com/", "mailto:someone@example.com"] {
        assert_eq!(following(uri), Follow::External { uri: uri.to_owned() });
    }
}

#[test]
fn a_file_beside_the_document_that_is_not_markdown_goes_to_the_desktop() {
    assert_eq!(following("axiomd://doc-3/report.pdf"), Follow::Attachment { file: format!("{ROOT}/report.pdf") });
    assert_eq!(
        following("axiomd://doc-3/images/logo.png"),
        Follow::Attachment { file: format!("{ROOT}/images/logo.png") },
    );
}

#[test]
fn a_request_the_document_spells_is_asked_of_the_app_only_on_a_click() {
    let request = Request::LoadImage("https://example.com/a.png".to_owned());
    assert_eq!(
        decided(HERE, Some(ROOT), "axiomd://doc-3/load?x", true, Some(request.clone())),
        Follow::Ask(request.clone()),
    );
    assert_eq!(
        decided(HERE, Some(ROOT), "axiomd://doc-3/toggle", true, Some(Request::ToggleTask(349))),
        Follow::Ask(Request::ToggleTask(349)),
    );
    assert_eq!(decided(HERE, Some(ROOT), "axiomd://doc-3/load?x", false, Some(request)), Follow::Refuse);
}

#[test]
fn a_document_cannot_reach_outside_its_own_folder_or_host() {
    for target in [
        "axiomd://doc-3/../secret.md",
        "axiomd://doc-3/images/../../secret.md",
        "axiomd://doc-3/%2e%2e/secret.md",
        "axiomd://doc-3/leak.md",
        "axiomd://doc-4/other.md",
        "axiomd://assets/axiomd.css",
        "file:///etc/passwd",
        "data:text/html,<h1>hi</h1>",
        "javascript:alert(1)",
        "ftp://example.com/x",
    ] {
        assert_eq!(following(target), Follow::Refuse, "{target} was followed");
    }
}

#[test]
fn nothing_leaves_the_document_unless_the_reader_clicked() {
    for target in ["axiomd://doc-3/notes.md", "https://example.com/", "axiomd://doc-3/report.pdf"] {
        assert_eq!(
            decided(HERE, Some(ROOT), target, false, None),
            Follow::Refuse,
            "{target} was followed without a click",
        );
    }
    assert_eq!(decided(HERE, Some(ROOT), "axiomd://doc-3/#x", false, None), Follow::Stay);
}

#[test]
fn the_documents_own_first_load_is_allowed() {
    assert_eq!(decided("", Some(ROOT), "axiomd://doc-0/", false, None), Follow::Stay);
    assert_eq!(decided("", Some(ROOT), "https://example.com/", false, None), Follow::Refuse);
}

#[test]
fn a_link_to_a_document_not_yet_written_is_still_that_document() {
    assert_eq!(
        following("axiomd://doc-3/later.md"),
        Follow::Document { file: format!("{ROOT}/later.md"), fragment: None },
    );
}

#[test]
fn fragments_and_escapes_are_read_the_way_a_browser_writes_them() {
    assert_eq!(split_fragment("a#b#c"), ("a".to_owned(), Some("b#c".to_owned())));
    assert_eq!(split_fragment("plain"), ("plain".to_owned(), None));
    assert_eq!(before_fragment("axiomd://doc-1/#top"), "axiomd://doc-1/");
    assert_eq!(decode("release%20notes.md"), Some("release notes.md".to_owned()));
    assert_eq!(decode("%e2%82%ac"), Some("€".to_owned()));
    assert_eq!(decode("%zz"), None);
    assert_eq!(decode("%2"), None);
    assert_eq!(decode("%ff"), None);
    assert!(opens_in_a_browser("HTTPS://example.com"));
    assert!(opens_in_a_browser("mailto:x@y"));
    assert!(!opens_in_a_browser("file:///etc/passwd"));
    assert!(!opens_in_a_browser("no scheme at all"));
}

#[test]
fn an_escape_is_a_percent_and_two_hexadecimal_digits() {
    assert_eq!(decode("%+f"), None);
    assert_eq!(decode("%-1"), None);
    assert_eq!(decode("%4A%4a"), Some("JJ".to_owned()));
    assert_eq!(decode("no escapes"), Some("no escapes".to_owned()));
}

#[test]
fn a_request_reaches_the_path_under_the_folder_or_a_real_file_still_inside_it() {
    let root = "/home/reader/notes";

    assert_eq!(path_under(root, "../secret.md"), None);

    let lexical = path_under(root, "./sub//page.md").unwrap();
    assert_eq!(lexical, "/home/reader/notes/sub/page.md");
    assert_eq!(contained(&lexical, None, Some(root)), Some(lexical.clone()));
    assert_eq!(
        contained(&lexical, Some("/home/reader/notes/real/page.md"), Some(root)),
        Some("/home/reader/notes/real/page.md".to_owned()),
    );
    assert_eq!(contained(&lexical, Some("/etc/passwd"), Some(root)), None);
    assert_eq!(contained(&lexical, Some("/home/reader/notes/sub/page.md"), None), None);
}
