//! The `axiomd://` origin — the only thing a document webview can reach.
//!
//! A window publishes its document here and gets back a URI to load. Everything the
//! rendered page then asks for comes back through [`Scheme::serve`]: the page itself,
//! the bundled stylesheet, the remote images the reader loaded, and the files the
//! document names relative to its own directory.
//!
//! * `axiomd://assets/<name>` — a bundled asset, matched by exact name.
//! * `axiomd://doc-<n>/` — the rendered HTML of published document `n`.
//! * `axiomd://doc-<n>/<path>` — a file under that document's own directory.
//! * `axiomd://img-<n>/<i>` — the `i`th remote image document `n`'s reader loaded.
//!
//! Each document is its own host, so the host names the root and a request can never
//! describe a root it was not given. Withdrawing a document takes its page, its folder
//! and its images with it.
use vstd::prelude::*;
use std::collections::HashMap;
use crate::decimal::{decimal, decimal_of, parse_u64, parse_usize, unsigned_value};
use crate::paths::{extension, extension_of};
use crate::text::{
    folded,
    chars_of, eq_ignore_ascii_case, extend_chars, occurs_at, same_chars,
    same_ignoring_ascii_case, slice_bytes, string_of, strip_prefix,
};

verus! {

broadcast use vstd::std_specs::hash::group_hash_axioms;

/// The URI scheme.
pub const SCHEME: &'static str = "axiomd";

/// The host bundled assets are served from; never a document root.
pub const ASSETS_HOST: &'static str = "assets";

/// The host prefix each published document gets, followed by its number.
pub const DOCUMENT_HOST_PREFIX: &'static str = "doc-";

/// The host prefix a document's loaded remote images get, followed by its number.
pub const IMAGE_HOST_PREFIX: &'static str = "img-";

/// The path the bundled stylesheet is served under.
pub const STYLESHEET_PATH: &'static str = "/axiomd.css";

/// The number `host` carries after `prefix`, when it is that kind of host at all.
pub open spec fn number_in(host: Seq<char>, prefix: Seq<char>) -> Option<int> {
    if occurs_at(host, prefix, 0) {
        unsigned_value(host.skip(prefix.len() as int), u64::MAX as int)
    } else {
        None
    }
}

/// Which of a document's loaded images `path` names.
pub open spec fn image_index(path: Seq<char>) -> Option<int> {
    if path.len() > 0 && path[0] == '/' {
        unsigned_value(path.drop_first(), usize::MAX as int)
    } else {
        None
    }
}

/// What a document's own file is declared as, by the extension of its name.
pub open spec fn declared_type(path: Seq<char>) -> Seq<char> {
    match extension(path) {
        Some(e) => if same_ignoring_ascii_case(e, "png"@) {
            "image/png"@
        } else if same_ignoring_ascii_case(e, "jpg"@) || same_ignoring_ascii_case(e, "jpeg"@) {
            "image/jpeg"@
        } else if same_ignoring_ascii_case(e, "gif"@) {
            "image/gif"@
        } else if same_ignoring_ascii_case(e, "svg"@) {
            "image/svg+xml"@
        } else if same_ignoring_ascii_case(e, "webp"@) {
            "image/webp"@
        } else if same_ignoring_ascii_case(e, "avif"@) {
            "image/avif"@
        } else if same_ignoring_ascii_case(e, "bmp"@) {
            "image/bmp"@
        } else if same_ignoring_ascii_case(e, "ico"@) {
            "image/vnd.microsoft.icon"@
        } else if same_ignoring_ascii_case(e, "css"@) {
            "text/css"@
        } else {
            "application/octet-stream"@
        },
        None => "application/octet-stream"@,
    }
}

/// The number a host carries after `prefix`, when it is that kind of host at all.
pub fn number_after(host: &str, prefix: &str) -> (n: Option<u64>)
    ensures
        match n {
            Some(v) => number_in(host@, prefix@) == Some(v as int),
            None => number_in(host@, prefix@) is None,
        },
{
    let h = chars_of(host);
    let p = chars_of(prefix);
    match strip_prefix(&h, &p) {
        Some(rest) => parse_u64(&rest),
        None => None,
    }
}

/// Which of a document's loaded images `/3` names.
pub fn index_of(path: &str) -> (i: Option<usize>)
    ensures
        match i {
            Some(v) => image_index(path@) == Some(v as int),
            None => image_index(path@) is None,
        },
{
    let p = chars_of(path);
    if p.len() > 0 && p[0] == '/' {
        let rest = crate::text::slice_chars(&p, 1, p.len());
        assert(rest@ =~= p@.drop_first());
        parse_usize(&rest)
    } else {
        None
    }
}

fn is_ext(e: &[char], name: &str) -> (yes: bool)
    ensures
        yes == same_ignoring_ascii_case(e@, name@),
{
    eq_ignore_ascii_case(e, &chars_of(name))
}

/// What a document's own files are declared as. Anything the pipeline does not put in
/// a document stays `application/octet-stream`; the page's content-security policy
/// accepts images and styles only, so an unknown type is inert even if something asks
/// for it.
pub fn content_type(path: &str) -> (t: &'static str)
    ensures
        t@ == declared_type(path@),
{
    match extension_of(&chars_of(path)) {
        Some(e) => if is_ext(&e, "png") {
            "image/png"
        } else if is_ext(&e, "jpg") || is_ext(&e, "jpeg") {
            "image/jpeg"
        } else if is_ext(&e, "gif") {
            "image/gif"
        } else if is_ext(&e, "svg") {
            "image/svg+xml"
        } else if is_ext(&e, "webp") {
            "image/webp"
        } else if is_ext(&e, "avif") {
            "image/avif"
        } else if is_ext(&e, "bmp") {
            "image/bmp"
        } else if is_ext(&e, "ico") {
            "image/vnd.microsoft.icon"
        } else if is_ext(&e, "css") {
            "text/css"
        } else {
            "application/octet-stream"
        },
        None => "application/octet-stream",
    }
}

/// One remote image the reader pressed the button for, held as the bytes that came
/// back.
struct Image {
    body: Vec<u8>,
    content_type: String,
}

/// One document as the webview sees it: where its relative references resolve, the
/// page currently rendered for it, and the remote images its reader has asked for.
struct Document {
    root: String,
    html: Option<String>,
    images: Vec<Image>,
}

/// A published document as the rules speak of it.
pub struct Page {
    pub root: Seq<char>,
    pub html: Option<Seq<char>>,
    pub images: Seq<(Seq<u8>, Seq<char>)>,
}

/// The images `v` holds, as the rules speak of them.
spec fn pictures(v: Seq<Image>) -> Seq<(Seq<u8>, Seq<char>)> {
    v.map_values(|i: Image| (i.body@, i.content_type@))
}

impl View for Document {
    type V = Page;

    closed spec fn view(&self) -> Page {
        Page {
            root: self.root@,
            html: match self.html {
                Some(h) => Some(h@),
                None => None,
            },
            images: pictures(self.images@),
        }
    }
}

/// The answer to one request.
#[derive(Debug, PartialEq, Eq)]
pub enum Served {
    Bytes { body: Vec<u8>, content_type: String },
    /// The bundled stylesheet the render pipeline links to.
    Stylesheet,
    /// A file under a document's own directory: `root` is the directory, `request` the
    /// path asked for. The filesystem is the caller's to ask ([`file_answer`]).
    File { root: String, request: String },
    /// Nothing is published at this URI.
    Missing,
    /// The URI named something outside the document's own directory, or a scheme this
    /// handler does not own. Never answered with bytes.
    Refused,
}

/// An answer as the rules speak of it.
pub enum Answer {
    Bytes(Seq<u8>, Seq<char>),
    Stylesheet,
    File(Seq<char>, Seq<char>),
    Missing,
    Refused,
}

impl View for Served {
    type V = Answer;

    open spec fn view(&self) -> Answer {
        match self {
            Served::Bytes { body, content_type } => Answer::Bytes(body@, content_type@),
            Served::Stylesheet => Answer::Stylesheet,
            Served::File { root, request } => Answer::File(root@, request@),
            Served::Missing => Answer::Missing,
            Served::Refused => Answer::Refused,
        }
    }
}

/// A request URI taken apart: its scheme, its host and its path.
pub struct Uri {
    pub scheme: String,
    pub host: String,
    pub path: String,
}

/// What the scheme answers for a request, given every document it has published.
/// `parts` is the request taken apart, or `None` for one that is not a URI at all.
pub open spec fn answer(pages: Map<u64, Page>, parts: Option<(Seq<char>, Seq<char>, Seq<char>)>) -> Answer {
    match parts {
        None => Answer::Refused,
        Some((scheme, host, path)) => if scheme != "axiomd"@ {
            Answer::Refused
        } else if host == "assets"@ {
            if path == "/axiomd.css"@ {
                Answer::Stylesheet
            } else {
                Answer::Missing
            }
        } else if number_in(host, "img-"@) is Some {
            let id = number_in(host, "img-"@).unwrap() as u64;
            match image_index(path) {
                Some(i) => if pages.contains_key(id) && i < pages[id].images.len() {
                    Answer::Bytes(pages[id].images[i].0, pages[id].images[i].1)
                } else {
                    Answer::Missing
                },
                None => Answer::Missing,
            }
        } else if number_in(host, "doc-"@) is None {
            Answer::Refused
        } else {
            let id = number_in(host, "doc-"@).unwrap() as u64;
            if !pages.contains_key(id) {
                Answer::Missing
            } else if path.len() == 0 || path == "/"@ {
                match pages[id].html {
                    Some(h) => Answer::Bytes(vstd::utf8::encode_utf8(h), "text/html"@),
                    None => Answer::Missing,
                }
            } else {
                Answer::File(pages[id].root, path)
            }
        },
    }
}

/// A document's place on the scheme: its number, and the URI a webview loads to show
/// it.
pub struct Publication {
    pub id: u64,
    pub uri: String,
}

/// The URI document `id` is published at.
pub open spec fn page_uri(id: u64) -> Seq<char> {
    "axiomd://doc-"@ + decimal_of(id as nat) + "/"@
}

/// The URI the `index`th image loaded for document `id` is served at.
pub open spec fn image_uri(id: u64, index: nat) -> Seq<char> {
    "axiomd://img-"@ + decimal_of(id as nat) + "/"@ + decimal_of(index)
}

/// The published documents of one application.
pub struct Scheme {
    documents: HashMap<u64, Document>,
    next: u64,
}

impl Scheme {
    #[verifier::type_invariant]
    spec fn numbered_below_next(&self) -> bool {
        forall|k: u64| self.documents@.contains_key(k) ==> k < self.next
    }

    /// Every published document, by number.
    pub closed spec fn pages(&self) -> Map<u64, Page> {
        self.documents@.map_values(|d: Document| d@)
    }

    /// The number the next document is given.
    pub closed spec fn next_id(&self) -> u64 {
        self.next
    }

    /// A scheme with nothing published.
    pub fn new() -> (s: Scheme)
        ensures
            s.pages() == Map::<u64, Page>::empty(),
            s.next_id() == 0,
    {
        let s = Scheme { documents: HashMap::new(), next: 0 };
        assert(s.documents@.map_values(|d: Document| d@) =~= Map::<u64, Page>::empty());
        s
    }

    /// Whether another document can be given a number of its own.
    pub fn can_publish(&self) -> (yes: bool)
        ensures
            yes == (self.next_id() < u64::MAX),
    {
        self.next < u64::MAX
    }

    /// Publishes a document whose relative references resolve under `root`, giving
    /// its window a URI to load. It starts blank: nothing is served at that URI until a
    /// page is shown for it.
    pub fn publish(&mut self, root: &str) -> (p: Publication)
        requires
            old(self).next_id() < u64::MAX,
        ensures
            p.id == old(self).next_id(),
            p.uri@ == page_uri(p.id),
            !old(self).pages().contains_key(p.id),
            final(self).next_id() == old(self).next_id() + 1,
            final(self).pages() == old(self).pages().insert(
                p.id,
                Page { root: root@, html: None, images: seq![] },
            ),
    {
        proof {
            use_type_invariant(&*self);
        }
        let id = self.next;
        self.next = id + 1;
        let document = Document { root: root.to_owned(), html: None, images: Vec::new() };
        let mut documents = HashMap::new();
        std::mem::swap(&mut documents, &mut self.documents);
        let ghost before = documents@;
        documents.insert(id, document);
        proof {
            assert(pictures(Seq::<Image>::empty()) =~= Seq::<(Seq<u8>, Seq<char>)>::empty());
            assert(documents@.map_values(|d: Document| d@) =~= before.map_values(
                |d: Document| d@,
            ).insert(id, Page { root: root@, html: None, images: seq![] }));
        }
        self.documents = documents;
        let mut uri = chars_of("axiomd://doc-");
        extend_chars(&mut uri, &decimal(id));
        extend_chars(&mut uri, &chars_of("/"));
        Publication { id, uri: string_of(&uri) }
    }

    /// Makes `html` the page served for document `id`, when it is still published.
    pub fn show(&mut self, id: u64, html: String)
        ensures
            old(self).pages().contains_key(id) ==> final(self).pages() == old(self).pages().insert(
                id,
                Page { html: Some(html@), ..old(self).pages()[id] },
            ),
            !old(self).pages().contains_key(id) ==> final(self).pages() == old(self).pages(),
            final(self).next_id() == old(self).next_id(),
    {
        proof {
            use_type_invariant(&*self);
        }
        let mut documents = HashMap::new();
        std::mem::swap(&mut documents, &mut self.documents);
        let ghost before = documents@;
        match documents.remove(&id) {
            Some(document) => {
                let updated = Document { root: document.root, html: Some(html), images: document.images };
                documents.insert(id, updated);
                proof {
                    assert(documents@.map_values(|d: Document| d@) =~= before.map_values(
                        |d: Document| d@,
                    ).insert(id, Page { html: Some(html@), ..before.map_values(|d: Document| d@)[id] }));
                }
            },
            None => {
                assert(documents@ =~= before);
            },
        }
        self.documents = documents;
    }

    /// Puts a remote image the reader asked for where document `id`'s view can see it,
    /// and answers with the URI to point at it — or nothing, for a document that is no
    /// longer published.
    pub fn attach_image(&mut self, id: u64, body: Vec<u8>, content_type: String) -> (uri: String)
        ensures
            final(self).next_id() == old(self).next_id(),
            old(self).pages().contains_key(id) ==> {
                &&& uri@ == image_uri(id, old(self).pages()[id].images.len())
                &&& final(self).pages() == old(self).pages().insert(
                    id,
                    Page {
                        images: old(self).pages()[id].images.push((body@, content_type@)),
                        ..old(self).pages()[id]
                    },
                )
            },
            !old(self).pages().contains_key(id) ==> uri@.len() == 0 && final(self).pages() == old(
                self,
            ).pages(),
    {
        proof {
            use_type_invariant(&*self);
        }
        let mut documents = HashMap::new();
        std::mem::swap(&mut documents, &mut self.documents);
        let ghost before = documents@;
        let ghost image = (body@, content_type@);
        match documents.remove(&id) {
            Some(document) => {
                let mut images = document.images;
                let ghost old_images = images@;
                images.push(Image { body, content_type });
                let index = images.len() - 1;
                assert(pictures(images@) =~= pictures(old_images).push(image));
                let updated = Document { root: document.root, html: document.html, images };
                documents.insert(id, updated);
                proof {
                    assert(documents@.map_values(|d: Document| d@) =~= before.map_values(
                        |d: Document| d@,
                    ).insert(
                        id,
                        Page {
                            images: before.map_values(|d: Document| d@)[id].images.push(image),
                            ..before.map_values(|d: Document| d@)[id]
                        },
                    ));
                }
                self.documents = documents;
                let mut uri = chars_of("axiomd://img-");
                extend_chars(&mut uri, &decimal(id));
                extend_chars(&mut uri, &chars_of("/"));
                extend_chars(&mut uri, &decimal(index as u64));
                string_of(&uri)
            },
            None => {
                assert(documents@ =~= before);
                self.documents = documents;
                String::new()
            },
        }
    }

    /// The directory document `id`'s relative references resolve under, or nothing for
    /// a document that is no longer published.
    pub fn root(&self, id: u64) -> (root: String)
        ensures
            self.pages().contains_key(id) ==> root@ == self.pages()[id].root,
            !self.pages().contains_key(id) ==> root@.len() == 0,
    {
        match self.documents.get(&id) {
            Some(document) => document.root.clone(),
            None => String::new(),
        }
    }

    /// Withdraws document `id`: its page, its directory and its images stop being
    /// reachable. What closing a window does.
    pub fn withdraw(&mut self, id: u64)
        ensures
            final(self).pages() == old(self).pages().remove(id),
            final(self).next_id() == old(self).next_id(),
    {
        proof {
            use_type_invariant(&*self);
        }
        let mut documents = HashMap::new();
        std::mem::swap(&mut documents, &mut self.documents);
        let ghost before = documents@;
        documents.remove(&id);
        proof {
            assert(documents@.map_values(|d: Document| d@) =~= before.map_values(
                |d: Document| d@,
            ).remove(id));
        }
        self.documents = documents;
    }

    /// Whether nothing is published at all.
    pub fn is_empty(&self) -> (empty: bool)
        ensures
            empty == (self.pages().dom().len() == 0),
    {
        proof {
            assert(self.documents@.dom() =~= self.pages().dom());
        }
        self.documents.len() == 0
    }

    /// Answers one request. The whole policy of the scheme lives here. `parts` is the
    /// request URI taken apart, or `None` for one that does not parse.
    pub fn serve(&self, parts: Option<Uri>) -> (served: Served)
        ensures
            served@ == answer(
                self.pages(),
                match parts {
                    Some(u) => Some((u.scheme@, u.host@, u.path@)),
                    None => None,
                },
            ),
    {
        let uri = match parts {
            Some(u) => u,
            None => return Served::Refused,
        };
        proof {
            reveal_strlit("axiomd");
            reveal_strlit("assets");
            reveal_strlit("/axiomd.css");
            reveal_strlit("img-");
            reveal_strlit("doc-");
            reveal_strlit("/");
        }
        let scheme = chars_of(uri.scheme.as_str());
        if !same_chars(&scheme, &chars_of(SCHEME)) {
            return Served::Refused;
        }
        let host = chars_of(uri.host.as_str());
        let path = chars_of(uri.path.as_str());
        if same_chars(&host, &chars_of(ASSETS_HOST)) {
            return if same_chars(&path, &chars_of(STYLESHEET_PATH)) {
                Served::Stylesheet
            } else {
                Served::Missing
            };
        }
        if let Some(id) = number_after(uri.host.as_str(), IMAGE_HOST_PREFIX) {
            return match index_of(uri.path.as_str()) {
                Some(i) => match self.documents.get(&id) {
                    Some(document) => if i < document.images.len() {
                        let image = &document.images[i];
                        proof {
                            assert(self.pages()[id] == document@);
                            assert(document@.images[i as int] == (image.body@, image.content_type@));
                            assert(image.body@.subrange(0, image.body@.len() as int) =~= image.body@);
                        }
                        Served::Bytes {
                            body: slice_bytes(&image.body, 0, image.body.len()),
                            content_type: image.content_type.clone(),
                        }
                    } else {
                        Served::Missing
                    },
                    None => Served::Missing,
                },
                None => Served::Missing,
            };
        }
        let id = match number_after(uri.host.as_str(), DOCUMENT_HOST_PREFIX) {
            Some(id) => id,
            None => return Served::Refused,
        };
        let document = match self.documents.get(&id) {
            Some(document) => document,
            None => return Served::Missing,
        };
        proof {
            assert(self.pages()[id] == document@);
        }
        if path.len() == 0 || same_chars(&path, &chars_of("/")) {
            return match &document.html {
                Some(html) => {
                    let bytes = html.as_str().as_bytes();
                    assert(bytes@.subrange(0, bytes@.len() as int) =~= bytes@);
                    Served::Bytes { body: slice_bytes(bytes, 0, bytes.len()), content_type: "text/html".to_owned() }
                },
                None => Served::Missing,
            };
        }
        Served::File { root: document.root.clone(), request: uri.path }
    }
}

/// What a request for a document's own file is answered with, once the filesystem has
/// been asked: `resolved` is the file under the document's folder that the request
/// names, or `None` when it names something outside it; `read` is what reading that
/// file gave.
pub fn file_answer(resolved: Option<&str>, read: Option<Vec<u8>>) -> (served: Served)
    ensures
        served@ == match resolved {
            None => Answer::Refused,
            Some(file) => match read {
                Some(body) => Answer::Bytes(body@, declared_type(file@)),
                None => Answer::Missing,
            },
        },
{
    match resolved {
        None => Served::Refused,
        Some(file) => match read {
            Some(body) => Served::Bytes { body, content_type: content_type(file).to_owned() },
            None => Served::Missing,
        },
    }
}

proof fn lemma_number_in_prefixed(prefix: Seq<char>, id: u64)
    ensures
        number_in(prefix + decimal_of(id as nat), prefix) == Some(id as int),
{
    let host = prefix + decimal_of(id as nat);
    assert(host.subrange(0, prefix.len() as int) =~= prefix);
    assert(host.skip(prefix.len() as int) =~= decimal_of(id as nat));
    crate::decimal::lemma_unsigned_value_of_decimal(id as nat, u64::MAX as int);
}

proof fn lemma_prefix_numbers_differ(id: u64)
    ensures
        number_in("doc-"@ + decimal_of(id as nat), "img-"@) is None,
        number_in("img-"@ + decimal_of(id as nat), "doc-"@) is None,
{
    reveal_strlit("doc-");
    reveal_strlit("img-");
    let d = "doc-"@ + decimal_of(id as nat);
    let i = "img-"@ + decimal_of(id as nat);
    assert(d.subrange(0, 4)[0] == 'd');
    assert(i.subrange(0, 4)[0] == 'i');
}

proof fn lemma_first_letters_differ(e: Seq<char>, a: Seq<char>, b: Seq<char>)
    requires
        same_ignoring_ascii_case(e, a),
        a.len() > 0,
        b.len() > 0,
        folded(a[0]) != folded(b[0]),
    ensures
        !same_ignoring_ascii_case(e, b),
{
    assert(folded(e[0]) == folded(a[0]));
}

/// Each extension a document's files are served by declares its own type, in any ASCII
/// case: `png` a PNG, `jpg` and `jpeg` a JPEG, `gif` a GIF, `svg` SVG, `webp` WebP,
/// `avif` AVIF, `bmp` a bitmap, `ico` an icon and `css` a stylesheet; a file with any
/// other extension, or none, is plain bytes.
pub proof fn law_each_extension_declares_its_own_type(p: Seq<char>)
    ensures
        extension(p) matches Some(e) && same_ignoring_ascii_case(e, "png"@) ==> declared_type(p) == "image/png"@,
        extension(p) matches Some(e) && same_ignoring_ascii_case(e, "jpg"@) ==> declared_type(p) == "image/jpeg"@,
        extension(p) matches Some(e) && same_ignoring_ascii_case(e, "jpeg"@) ==> declared_type(p) == "image/jpeg"@,
        extension(p) matches Some(e) && same_ignoring_ascii_case(e, "gif"@) ==> declared_type(p) == "image/gif"@,
        extension(p) matches Some(e) && same_ignoring_ascii_case(e, "svg"@) ==> declared_type(p) == "image/svg+xml"@,
        extension(p) matches Some(e) && same_ignoring_ascii_case(e, "webp"@) ==> declared_type(p) == "image/webp"@,
        extension(p) matches Some(e) && same_ignoring_ascii_case(e, "avif"@) ==> declared_type(p) == "image/avif"@,
        extension(p) matches Some(e) && same_ignoring_ascii_case(e, "bmp"@) ==> declared_type(p) == "image/bmp"@,
        extension(p) matches Some(e) && same_ignoring_ascii_case(e, "ico"@) ==> declared_type(p)
            == "image/vnd.microsoft.icon"@,
        extension(p) matches Some(e) && same_ignoring_ascii_case(e, "css"@) ==> declared_type(p) == "text/css"@,
        extension(p) is None ==> declared_type(p) == "application/octet-stream"@,
        extension(p) matches Some(e) && (!same_ignoring_ascii_case(e, "png"@) && !same_ignoring_ascii_case(e, "jpg"@) && !same_ignoring_ascii_case(e, "jpeg"@) && !same_ignoring_ascii_case(e, "gif"@) && !same_ignoring_ascii_case(e, "svg"@) && !same_ignoring_ascii_case(e, "webp"@) && !same_ignoring_ascii_case(e, "avif"@) && !same_ignoring_ascii_case(e, "bmp"@) && !same_ignoring_ascii_case(e, "ico"@) && !same_ignoring_ascii_case(e, "css"@)) ==> declared_type(p) == "application/octet-stream"@,
{
    reveal_strlit("png");
    reveal_strlit("jpg");
    reveal_strlit("jpeg");
    reveal_strlit("gif");
    reveal_strlit("svg");
    reveal_strlit("webp");
    reveal_strlit("avif");
    reveal_strlit("bmp");
    reveal_strlit("ico");
    reveal_strlit("css");
    if let Some(e) = extension(p) {
        if same_ignoring_ascii_case(e, "jpg"@) {
            lemma_first_letters_differ(e, "jpg"@, "png"@);
        }
        if same_ignoring_ascii_case(e, "jpeg"@) {
            lemma_first_letters_differ(e, "jpeg"@, "png"@);
        }
        if same_ignoring_ascii_case(e, "gif"@) {
            lemma_first_letters_differ(e, "gif"@, "png"@);
            lemma_first_letters_differ(e, "gif"@, "jpg"@);
            lemma_first_letters_differ(e, "gif"@, "jpeg"@);
        }
        if same_ignoring_ascii_case(e, "svg"@) {
            lemma_first_letters_differ(e, "svg"@, "png"@);
            lemma_first_letters_differ(e, "svg"@, "jpg"@);
            lemma_first_letters_differ(e, "svg"@, "jpeg"@);
            lemma_first_letters_differ(e, "svg"@, "gif"@);
        }
        if same_ignoring_ascii_case(e, "webp"@) {
            lemma_first_letters_differ(e, "webp"@, "png"@);
            lemma_first_letters_differ(e, "webp"@, "jpg"@);
            lemma_first_letters_differ(e, "webp"@, "jpeg"@);
            lemma_first_letters_differ(e, "webp"@, "gif"@);
            lemma_first_letters_differ(e, "webp"@, "svg"@);
        }
        if same_ignoring_ascii_case(e, "avif"@) {
            lemma_first_letters_differ(e, "avif"@, "png"@);
            lemma_first_letters_differ(e, "avif"@, "jpg"@);
            lemma_first_letters_differ(e, "avif"@, "jpeg"@);
            lemma_first_letters_differ(e, "avif"@, "gif"@);
            lemma_first_letters_differ(e, "avif"@, "svg"@);
            lemma_first_letters_differ(e, "avif"@, "webp"@);
        }
        if same_ignoring_ascii_case(e, "bmp"@) {
            lemma_first_letters_differ(e, "bmp"@, "png"@);
            lemma_first_letters_differ(e, "bmp"@, "jpg"@);
            lemma_first_letters_differ(e, "bmp"@, "jpeg"@);
            lemma_first_letters_differ(e, "bmp"@, "gif"@);
            lemma_first_letters_differ(e, "bmp"@, "svg"@);
            lemma_first_letters_differ(e, "bmp"@, "webp"@);
            lemma_first_letters_differ(e, "bmp"@, "avif"@);
        }
        if same_ignoring_ascii_case(e, "ico"@) {
            lemma_first_letters_differ(e, "ico"@, "png"@);
            lemma_first_letters_differ(e, "ico"@, "jpg"@);
            lemma_first_letters_differ(e, "ico"@, "jpeg"@);
            lemma_first_letters_differ(e, "ico"@, "gif"@);
            lemma_first_letters_differ(e, "ico"@, "svg"@);
            lemma_first_letters_differ(e, "ico"@, "webp"@);
            lemma_first_letters_differ(e, "ico"@, "avif"@);
            lemma_first_letters_differ(e, "ico"@, "bmp"@);
        }
        if same_ignoring_ascii_case(e, "css"@) {
            lemma_first_letters_differ(e, "css"@, "png"@);
            lemma_first_letters_differ(e, "css"@, "jpg"@);
            lemma_first_letters_differ(e, "css"@, "jpeg"@);
            lemma_first_letters_differ(e, "css"@, "gif"@);
            lemma_first_letters_differ(e, "css"@, "svg"@);
            lemma_first_letters_differ(e, "css"@, "webp"@);
            lemma_first_letters_differ(e, "css"@, "avif"@);
            lemma_first_letters_differ(e, "css"@, "bmp"@);
            lemma_first_letters_differ(e, "css"@, "ico"@);
        }
    }
}

/// What a read gives back of a write: once a page has been shown for a published
/// document, the document's own URI is answered with that page.
pub proof fn law_a_shown_page_is_served_at_its_uri(pages: Map<u64, Page>, id: u64, html: Seq<char>)
    requires
        pages.contains_key(id),
        pages[id].html == Some(html),
    ensures
        answer(pages, Some(("axiomd"@, "doc-"@ + decimal_of(id as nat), "/"@))) == Answer::Bytes(
            vstd::utf8::encode_utf8(html),
            "text/html"@,
        ),
{
    reveal_strlit("assets");
    reveal_strlit("doc-");
    lemma_number_in_prefixed("doc-"@, id);
    lemma_prefix_numbers_differ(id);
    let host = "doc-"@ + decimal_of(id as nat);
    assert(host.len() != 6 || host[0] == 'd');
    assert(host != "assets"@) by {
        if host == "assets"@ {
            assert(host[0] == 'd');
            assert("assets"@[0] == 'a');
        }
    }
}

/// A page published and never shown is not answered with anything: a document shows
/// nothing until a page has been rendered for it.
pub proof fn law_nothing_is_served_before_a_page_is_shown(pages: Map<u64, Page>, id: u64, path: Seq<char>)
    requires
        pages.contains_key(id),
        pages[id].html is None,
        path.len() == 0 || path == "/"@,
    ensures
        answer(pages, Some(("axiomd"@, "doc-"@ + decimal_of(id as nat), path))) == Answer::Missing,
{
    reveal_strlit("assets");
    reveal_strlit("doc-");
    lemma_number_in_prefixed("doc-"@, id);
    lemma_prefix_numbers_differ(id);
    let host = "doc-"@ + decimal_of(id as nat);
    assert(host != "assets"@) by {
        if host == "assets"@ {
            assert(host[0] == 'd');
            assert("assets"@[0] == 'a');
        }
    }
}

/// An image the reader loaded is answered at the URI it was given, with the bytes and
/// the type it came back with — from the document's own origin.
pub proof fn law_a_loaded_image_is_served_at_its_uri(pages: Map<u64, Page>, id: u64, index: usize)
    requires
        pages.contains_key(id),
        index < pages[id].images.len(),
    ensures
        answer(
            pages,
            Some(("axiomd"@, "img-"@ + decimal_of(id as nat), "/"@ + decimal_of(index as nat))),
        ) == Answer::Bytes(pages[id].images[index as int].0, pages[id].images[index as int].1),
{
    reveal_strlit("assets");
    reveal_strlit("img-");
    reveal_strlit("/");
    lemma_number_in_prefixed("img-"@, id);
    let host = "img-"@ + decimal_of(id as nat);
    assert(host != "assets"@) by {
        if host == "assets"@ {
            assert(host[0] == 'i');
            assert("assets"@[0] == 'a');
        }
    }
    let path = "/"@ + decimal_of(index as nat);
    assert(path.drop_first() =~= decimal_of(index as nat));
    crate::decimal::lemma_unsigned_value_of_decimal(index as nat, usize::MAX as int);
}

/// Closing a window leaves nothing behind: once a document is withdrawn, no request
/// naming its number — its page, a file under its folder, an image its reader loaded —
/// is answered with anything.
pub proof fn law_a_withdrawn_document_is_unreachable(
    pages: Map<u64, Page>,
    id: u64,
    host: Seq<char>,
    path: Seq<char>,
)
    requires
        number_in(host, "doc-"@) == Some(id as int) || number_in(host, "img-"@) == Some(id as int),
    ensures
        answer(pages.remove(id), Some(("axiomd"@, host, path))) == Answer::Missing,
{
    reveal_strlit("assets");
    reveal_strlit("doc-");
    reveal_strlit("img-");
    assert("assets"@[0] == 'a');
    if occurs_at(host, "doc-"@, 0) {
        assert(host[0] == host.subrange(0, 4)[0]);
        assert(host[0] == 'd');
        assert(!occurs_at(host, "img-"@, 0));
        assert(host != "assets"@);
    }
    if occurs_at(host, "img-"@, 0) {
        assert(host[0] == host.subrange(0, 4)[0]);
        assert(host[0] == 'i');
        assert(host != "assets"@);
    }
}

/// One window's document is not another's: a request naming document `other` is never
/// answered from document `id` — each number is its own host over its own directory,
/// page and images.
pub proof fn law_documents_do_not_share(pages: Map<u64, Page>, id: u64, other: u64, path: Seq<char>)
    requires
        id != other,
    ensures
        answer(pages, Some(("axiomd"@, "doc-"@ + decimal_of(other as nat), path))) == answer(
            pages.remove(id),
            Some(("axiomd"@, "doc-"@ + decimal_of(other as nat), path)),
        ),
        answer(pages, Some(("axiomd"@, "img-"@ + decimal_of(other as nat), path))) == answer(
            pages.remove(id),
            Some(("axiomd"@, "img-"@ + decimal_of(other as nat), path)),
        ),
{
    lemma_number_in_prefixed("doc-"@, other);
    lemma_number_in_prefixed("img-"@, other);
    lemma_prefix_numbers_differ(other);
    assert(pages.remove(id).contains_key(other) == pages.contains_key(other));
    if pages.contains_key(other) {
        assert(pages.remove(id)[other] == pages[other]);
    }
}

/// Publishing never hands out a number already in use, so two windows never share a
/// URI.
pub proof fn law_every_publication_is_new(pages: Map<u64, Page>, next: u64)
    requires
        forall|k: u64| pages.contains_key(k) ==> k < next,
    ensures
        !pages.contains_key(next),
{
}

} // verus!
