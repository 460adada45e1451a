use axiomd::links::{contained, decode};
use axiomd::paths::path_under;
use axiomd::scheme::{content_type, file_answer, index_of, number_after, Scheme, Served, Uri};

const PIXEL_PNG: &[u8] = b"\x89PNG\r\n\x1a\n\x00\x00\x00\rIHDR";

/// A request URI taken apart, as the app's URI parser hands it over: scheme, host, and
/// the path with its escapes decoded.
fn parts(uri: &str) -> Option<Uri> {
    let (scheme, rest) = uri.split_once("://")?;
    let (host, path) = match rest.find('/') {
        Some(at) => (&rest[..at], &rest[at..]),
        None => (rest, ""),
    };
    Some(Uri { scheme: scheme.to_owned(), host: host.to_owned(), path: decode(path)? })
}

/// A filesystem in memory: files by full path, and symlinks from a path to the file
/// they lead to.
struct Disk {
    files: Vec<(String, Vec<u8>)>,
    links: Vec<(String, String)>,
}

impl Disk {
    fn new() -> Disk {
        Disk { files: Vec::new(), links: Vec::new() }
    }

    fn write(&mut self, path: &str, bytes: &[u8]) {
        self.files.push((path.to_owned(), bytes.to_vec()));
    }

    fn read(&self, path: &str) -> Option<Vec<u8>> {
        self.files.iter().find(|(p, _)| p == path).map(|(_, b)| b.clone())
    }

    fn canonical(&self, path: &str) -> Option<String> {
        if let Some((_, target)) = self.links.iter().find(|(p, _)| p == path) {
            return self.read(target).map(|_| target.clone());
        }
        self.read(path).map(|_| path.to_owned())
    }
}

/// Answers `uri` as the app does: the scheme's decision, and for a document's own file
/// the containment rule and a read of the disk.
fn answer(scheme: &Scheme, uri: &str, disk: &Disk) -> Served {
    match scheme.serve(parts(uri)) {
        Served::File { root, request } => {
            let resolved = path_under(&root, &request)
                .and_then(|lexical| contained(&lexical, disk.canonical(&lexical).as_deref(), Some(&root)));
            let read = resolved.as_deref().and_then(|file| disk.read(file));
            file_answer(resolved.as_deref(), read)
        }
        other => other,
    }
}

fn served_bytes(served: Served) -> (Vec<u8>, String) {
    match served {
        Served::Bytes { body, content_type } => (body, content_type),
        other => panic!("expected bytes, got {other:?}"),
    }
}

#[test]
fn serves_the_rendered_page_at_the_documents_own_uri() {
    let disk = Disk::new();
    let mut scheme = Scheme::new();
    let publication = scheme.publish("/scratch");
    scheme.show(publication.id, "<!DOCTYPE html><h1>Notes</h1>".to_owned());

    let (body, content_type) = served_bytes(answer(&scheme, &publication.uri, &disk));

    assert_eq!(String::from_utf8(body).unwrap(), "<!DOCTYPE html><h1>Notes</h1>");
    assert_eq!(content_type, "text/html");
}

#[test]
fn shows_nothing_until_a_page_has_been_rendered() {
    let disk = Disk::new();
    let mut scheme = Scheme::new();
    let publication = scheme.publish("/scratch");

    assert_eq!(answer(&scheme, &publication.uri, &disk), Served::Missing);
}

#[test]
fn resolves_an_image_the_document_names_relative_to_itself() {
    let mut disk = Disk::new();
    disk.write("/scratch/notes.md", b"![](images/logo.png)\n");
    disk.write("/scratch/images/logo.png", PIXEL_PNG);
    let mut scheme = Scheme::new();
    let publication = scheme.publish("/scratch");

    let request = format!("{}images/logo.png", publication.uri);
    let (body, content_type) = served_bytes(answer(&scheme, &request, &disk));

    assert_eq!(body, PIXEL_PNG);
    assert_eq!(content_type, "image/png");
}

#[test]
fn serves_nothing_from_outside_the_document_directory() {
    let mut disk = Disk::new();
    disk.write("/scratch/inner/notes.md", b"# Notes\n");
    disk.write("/scratch/secret.txt", b"credentials");
    let mut scheme = Scheme::new();
    let publication = scheme.publish("/scratch/inner");

    for escape in [
        "../secret.txt",
        "%2e%2e/secret.txt",
        "images/../../secret.txt",
        "..%2Fsecret.txt",
        "/etc/passwd",
    ] {
        let request = format!("{}{escape}", publication.uri);
        let served = answer(&scheme, &request, &disk);
        assert!(!matches!(served, Served::Bytes { .. }), "{request} was answered with {served:?}");
    }
}

#[test]
fn refuses_a_path_that_climbs_out_of_the_document_directory() {
    let root = "/scratch/inner";
    assert_eq!(file_answer(path_under(root, "/../secret.txt").as_deref(), None), Served::Refused);
    assert_eq!(
        file_answer(path_under(root, "/images/../../secret.txt").as_deref(), None),
        Served::Refused
    );
    assert_eq!(file_answer(path_under(root, "/../nothing-here.txt").as_deref(), None), Served::Refused);
}

#[test]
fn refuses_a_symlink_that_leads_out_of_the_document_directory() {
    let mut disk = Disk::new();
    disk.write("/scratch/inner/notes.md", b"# Notes\n");
    disk.write("/scratch/secret.txt", b"credentials");
    disk.links.push(("/scratch/inner/leak.txt".to_owned(), "/scratch/secret.txt".to_owned()));
    let mut scheme = Scheme::new();
    let publication = scheme.publish("/scratch/inner");

    let request = format!("{}leak.txt", publication.uri);

    assert_eq!(answer(&scheme, &request, &disk), Served::Refused);
}

#[test]
fn serves_the_stylesheet_the_render_pipeline_links_to() {
    let scheme = Scheme::new();
    assert_eq!(scheme.serve(parts("axiomd://assets/axiomd.css")), Served::Stylesheet);
}

#[test]
fn has_no_asset_other_than_the_ones_it_bundles() {
    let disk = Disk::new();
    let scheme = Scheme::new();

    assert_eq!(answer(&scheme, "axiomd://assets/../../../etc/passwd", &disk), Served::Missing);
    assert_eq!(answer(&scheme, "axiomd://assets/anything.js", &disk), Served::Missing);
}

#[test]
fn answers_for_no_scheme_but_its_own() {
    let disk = Disk::new();
    let scheme = Scheme::new();

    assert_eq!(answer(&scheme, "file:///etc/passwd", &disk), Served::Refused);
    assert_eq!(answer(&scheme, "https://example.com/tracker.png", &disk), Served::Refused);
    assert_eq!(scheme.serve(None), Served::Refused);
}

#[test]
fn documents_do_not_share_pages_or_directories() {
    let mut disk = Disk::new();
    disk.write("/first/a.md", b"# A\n");
    disk.write("/second/b.md", b"# B\n");
    disk.write("/first/only-in-first.png", PIXEL_PNG);
    let mut scheme = Scheme::new();
    let first = scheme.publish("/first");
    let second = scheme.publish("/second");
    scheme.show(first.id, "<h1>A</h1>".to_owned());
    scheme.show(second.id, "<h1>B</h1>".to_owned());

    assert_ne!(first.uri, second.uri);
    assert_eq!(served_bytes(answer(&scheme, &first.uri, &disk)).0, b"<h1>A</h1>");
    assert_eq!(served_bytes(answer(&scheme, &second.uri, &disk)).0, b"<h1>B</h1>");
    assert_eq!(
        answer(&scheme, &format!("{}only-in-first.png", second.uri), &disk),
        Served::Missing
    );
}

#[test]
fn a_closed_documents_page_and_files_stop_being_reachable() {
    let mut disk = Disk::new();
    disk.write("/scratch/notes.md", b"# Notes\n");
    disk.write("/scratch/logo.png", PIXEL_PNG);
    let mut scheme = Scheme::new();
    let publication = scheme.publish("/scratch");
    scheme.show(publication.id, "<h1>Notes</h1>".to_owned());
    let page = publication.uri.clone();
    let image = format!("{page}logo.png");
    let loaded = scheme.attach_image(publication.id, PIXEL_PNG.to_vec(), "image/png".to_owned());

    scheme.withdraw(publication.id);

    assert_eq!(answer(&scheme, &page, &disk), Served::Missing);
    assert_eq!(answer(&scheme, &image, &disk), Served::Missing);
    assert_eq!(answer(&scheme, &loaded, &disk), Served::Missing);
    assert!(scheme.is_empty());
}

#[test]
fn an_image_the_reader_loaded_is_served_from_the_documents_own_origin() {
    let disk = Disk::new();
    let mut scheme = Scheme::new();
    let publication = scheme.publish("/scratch");

    let first = scheme.attach_image(publication.id, PIXEL_PNG.to_vec(), "image/png".to_owned());
    let second = scheme.attach_image(publication.id, b"GIF89a".to_vec(), "image/gif".to_owned());

    assert!(first.starts_with("axiomd://img-"), "{first}");
    assert_ne!(first, second, "two images shared one URI");
    assert_eq!(served_bytes(answer(&scheme, &first, &disk)), (PIXEL_PNG.to_vec(), "image/png".to_owned()));
    assert_eq!(served_bytes(answer(&scheme, &second, &disk)), (b"GIF89a".to_vec(), "image/gif".to_owned()));
    assert_eq!(
        answer(&scheme, &format!("{first}9"), &disk),
        Served::Missing,
        "an image nobody loaded was answered",
    );
}

#[test]
fn a_loaded_image_belongs_to_the_document_that_loaded_it() {
    let disk = Disk::new();
    let mut scheme = Scheme::new();
    let first = scheme.publish("/first");
    let second = scheme.publish("/second");

    let mine = scheme.attach_image(first.id, PIXEL_PNG.to_vec(), "image/png".to_owned());
    let theirs = scheme.attach_image(second.id, b"GIF89a".to_vec(), "image/gif".to_owned());

    assert_ne!(mine, theirs);
    scheme.withdraw(first.id);
    assert_eq!(answer(&scheme, &mine, &disk), Served::Missing);
    assert_eq!(
        served_bytes(answer(&scheme, &theirs, &disk)).0,
        b"GIF89a",
        "closing one window took another window's image with it",
    );
}

#[test]
fn the_uris_a_document_is_given_name_its_number() {
    let mut scheme = Scheme::new();
    assert!(scheme.can_publish());
    let first = scheme.publish("/a");
    let second = scheme.publish("/b");
    assert_eq!(first.uri, "axiomd://doc-0/");
    assert_eq!(second.uri, "axiomd://doc-1/");
    assert_eq!(scheme.attach_image(second.id, vec![1], "image/png".to_owned()), "axiomd://img-1/0");
    assert_eq!(scheme.root(first.id), "/a");
    assert_eq!(scheme.root(7), "");
    assert_eq!(scheme.attach_image(7, vec![1], "image/png".to_owned()), "");
}

#[test]
fn hosts_and_image_paths_are_read_as_numbers() {
    assert_eq!(number_after("doc-12", "doc-"), Some(12));
    assert_eq!(number_after("doc-", "doc-"), None);
    assert_eq!(number_after("img-3", "doc-"), None);
    assert_eq!(number_after("doc-+4", "doc-"), Some(4));
    assert_eq!(index_of("/3"), Some(3));
    assert_eq!(index_of("3"), None);
    assert_eq!(index_of("/x"), None);
}

#[test]
fn a_documents_files_are_declared_by_their_extension() {
    assert_eq!(content_type("/a/logo.PNG"), "image/png");
    assert_eq!(content_type("photo.jpeg"), "image/jpeg");
    assert_eq!(content_type("photo.jpg"), "image/jpeg");
    assert_eq!(content_type("drawing.svg"), "image/svg+xml");
    assert_eq!(content_type("icon.ico"), "image/vnd.microsoft.icon");
    assert_eq!(content_type("style.css"), "text/css");
    assert_eq!(content_type("script.js"), "application/octet-stream");
    assert_eq!(content_type("README"), "application/octet-stream");
}
