//! What happens when the reader clicks something.
//!
//! A rendered document cannot run a script, so every link in it arrives as a
//! navigation the view is about to make, and this module is the whole of the policy
//! that decides it. The view itself only ever stays on the document it was given;
//! anything else — another file, the browser, a request the document is making of the
//! app — is refused as a navigation and done deliberately instead.
//!
//! * **Nothing leaves the app without a click.** Everything but staying put requires
//!   the navigation to be a link activation.
//! * **A document's reach is its own directory.** A relative link resolves under the
//!   document's folder and may not climb out of it ([`crate::paths::path_under`]); a
//!   file it lands on through a symlink is held to the same rule by [`contained`].
//!
//! The filesystem is asked in one place only — where a relative link lands — so
//! [`follow`] answers [`Route::Reach`] for such a link, the caller asks the filesystem
//! where that path really leads, and [`contained`] and [`reached`] finish the decision.
use vstd::prelude::*;
use vstd::utf8::{decode_utf8, valid_utf8};
use crate::markdown::{is_markdown, names_markdown};
use crate::paths::{path_under, segments, under};
use crate::text::{
    chars_of, cut_once, eq_ignore_ascii_case, occurs_at, same_chars, same_ignoring_ascii_case,
    split_once, stands_at, string_of, strip_prefix,
};

verus! {

#[verifier::external_type_specification]
#[verifier::external_body]
pub struct ExUtf8Error(core::str::Utf8Error);

/// `str::from_utf8`: the text the bytes spell, when they are valid UTF-8 — the standard
/// library's documented contract, in vstd's model of UTF-8.
pub assume_specification[ core::str::from_utf8 ](v: &[u8]) -> (r: Result<&str, core::str::Utf8Error>)
    ensures
        r is Ok <==> valid_utf8(v@),
        r matches Ok(s) ==> s@ == decode_utf8(v@),
;

/// What a document can ask the app for by navigating: the one-click image loads, and
/// pressing a task list item's box.
#[derive(Clone, Debug, PartialEq, Eq)]
pub enum Request {
    LoadImage(String),
    LoadAllImages,
    ToggleTask(usize),
}

/// A request as the rules speak of it.
pub enum Asking {
    LoadImage(Seq<char>),
    LoadAllImages,
    ToggleTask(usize),
}

impl View for Request {
    type V = Asking;

    open spec fn view(&self) -> Asking {
        match self {
            Request::LoadImage(s) => Asking::LoadImage(s@),
            Request::LoadAllImages => Asking::LoadAllImages,
            Request::ToggleTask(n) => Asking::ToggleTask(*n),
        }
    }
}

/// What the app does about one navigation a document tried to make.
#[derive(Clone, Debug, PartialEq, Eq)]
pub enum Follow {
    /// The view may go there itself: the document it is already showing, or a
    /// fragment inside it.
    Stay,
    /// Another Markdown document in the reader's own folder, shown in this window.
    Document { file: String, fragment: Option<String> },
    /// A file beside the document that axiomd does not render: the desktop opens it.
    Attachment { file: String },
    /// Somewhere outside this computer: the default browser opens it.
    External { uri: String },
    /// The document asking the app for something.
    Ask(Request),
    /// None of the above, and therefore nothing at all.
    Refuse,
}

/// Where a navigation leads, as the rules speak of it.
pub enum Way {
    Stay,
    Document(Seq<char>, Option<Seq<char>>),
    Attachment(Seq<char>),
    External(Seq<char>),
    Ask(Asking),
    Refuse,
    Reach(Seq<char>, Option<Seq<char>>),
}

/// The text an optional string holds.
pub open spec fn text_of(s: Option<String>) -> Option<Seq<char>> {
    match s {
        Some(t) => Some(t@),
        None => None,
    }
}

impl View for Follow {
    type V = Way;

    open spec fn view(&self) -> Way {
        match self {
            Follow::Stay => Way::Stay,
            Follow::Document { file, fragment } => Way::Document(file@, text_of(*fragment)),
            Follow::Attachment { file } => Way::Attachment(file@),
            Follow::External { uri } => Way::External(uri@),
            Follow::Ask(r) => Way::Ask(r@),
            Follow::Refuse => Way::Refuse,
        }
    }
}

/// A navigation decided, or one that lands on a path under the document's folder and
/// needs the filesystem asked where that path really leads.
#[derive(Debug, PartialEq, Eq)]
pub enum Route {
    Decided(Follow),
    /// The lexical path under the folder, and the fragment the link carried.
    Reach { file: String, fragment: Option<String> },
}

impl View for Route {
    type V = Way;

    open spec fn view(&self) -> Way {
        match self {
            Route::Decided(f) => f@,
            Route::Reach { file, fragment } => Way::Reach(file@, text_of(*fragment)),
        }
    }
}

/// `uri` cut at its first `#`: the page, and the fragment if there is one.
pub open spec fn fragment_split(uri: Seq<char>) -> (Seq<char>, Option<Seq<char>>) {
    match cut_once(uri, seq!['#']) {
        Some((before, after)) => (before, Some(after)),
        None => (uri, None),
    }
}

/// The schemes a link may hand to the desktop: exactly `http`, `https` and `mailto`,
/// in any ASCII case.
pub open spec fn browsable(target: Seq<char>) -> bool {
    match cut_once(target, seq![':']) {
        Some((scheme, _)) => same_ignoring_ascii_case(scheme, "http"@) || same_ignoring_ascii_case(
            scheme,
            "https"@,
        ) || same_ignoring_ascii_case(scheme, "mailto"@),
        None => false,
    }
}

/// The value of one hexadecimal digit.
pub open spec fn hex_value(b: u8) -> Option<int> {
    if 48 <= b <= 57 {
        Some(b - 48)
    } else if 97 <= b <= 102 {
        Some(b - 87)
    } else if 65 <= b <= 70 {
        Some(b - 55)
    } else {
        None
    }
}

/// The byte the two characters after a `%` stand for: two hexadecimal digits, in
/// either case, and nothing else.
pub open spec fn escaped_byte(a: u8, b: u8) -> Option<u8> {
    match (hex_value(a), hex_value(b)) {
        (Some(x), Some(y)) => Some((x * 16 + y) as u8),
        _ => None,
    }
}

/// The bytes `bytes` stand for once every `%` escape in them is decoded, or none when an
/// escape is broken.
pub open spec fn unescaped(bytes: Seq<u8>) -> Option<Seq<u8>>
    decreases bytes.len(),
{
    if bytes.len() == 0 {
        Some(seq![])
    } else if bytes[0] == 37 {
        if bytes.len() < 3 {
            None
        } else {
            match (escaped_byte(bytes[1], bytes[2]), unescaped(bytes.skip(3))) {
                (Some(b), Some(rest)) => Some(seq![b] + rest),
                _ => None,
            }
        }
    } else {
        match unescaped(bytes.drop_first()) {
            Some(rest) => Some(seq![bytes[0]] + rest),
            None => None,
        }
    }
}

/// What percent-decoding `request` gives: the text its bytes spell once decoded, or
/// none when an escape is broken or what it decodes to is not UTF-8.
pub open spec fn decoded(request: Seq<char>) -> Option<Seq<char>> {
    match unescaped(vstd::utf8::encode_utf8(request)) {
        Some(bytes) => if valid_utf8(bytes) {
            Some(decode_utf8(bytes))
        } else {
            None
        },
        None => None,
    }
}

/// `b` spelled as a `%` escape: a `%` and its two hexadecimal digits, uppercase or
/// lowercase.
pub open spec fn escape_of(b: u8, upper: bool) -> Seq<u8> {
    let digits = if upper {
        "0123456789ABCDEF"@
    } else {
        "0123456789abcdef"@
    };
    seq![37u8, digits[(b / 16) as int] as u8, digits[(b % 16) as int] as u8]
}

/// `bytes` spelled out one at a time, each as `how` says: `0` as the byte itself, `1`
/// as an escape with uppercase digits, anything else as one with lowercase digits.
pub open spec fn spelled(bytes: Seq<u8>, how: Seq<u8>) -> Seq<u8>
    decreases bytes.len(),
{
    if bytes.len() == 0 {
        seq![]
    } else {
        let first = if how[0] == 0 {
            seq![bytes[0]]
        } else {
            escape_of(bytes[0], how[0] == 1)
        };
        first + spelled(bytes.drop_first(), how.drop_first())
    }
}

/// Every hexadecimal digit has its value, in either case — the `n`th of `0123456789ABCDEF`
/// and of `0123456789abcdef` is worth `n` — and nothing else is a digit at all.
pub proof fn law_every_hex_digit_has_its_value(n: int, b: u8)
    requires
        0 <= n < 16,
    ensures
        hex_value("0123456789ABCDEF"@[n] as u8) == Some(n),
        hex_value("0123456789abcdef"@[n] as u8) == Some(n),
        hex_value(b) matches Some(v) ==> 0 <= v < 16 && (b == "0123456789ABCDEF"@[v] as u8 || b
            == "0123456789abcdef"@[v] as u8),
{
    reveal_strlit("0123456789ABCDEF");
    reveal_strlit("0123456789abcdef");
    if n < 8 {
        if n < 4 {
            assert(n == 0 || n == 1 || n == 2 || n == 3);
        } else {
            assert(n == 4 || n == 5 || n == 6 || n == 7);
        }
    } else {
        if n < 12 {
            assert(n == 8 || n == 9 || n == 10 || n == 11);
        } else {
            assert(n == 12 || n == 13 || n == 14 || n == 15);
        }
    }
}

proof fn lemma_escape_reads_back(b: u8, upper: bool)
    ensures
        escaped_byte(escape_of(b, upper)[1], escape_of(b, upper)[2]) == Some(b),
{
    let hi = (b / 16) as int;
    let lo = (b % 16) as int;
    law_every_hex_digit_has_its_value(hi, b);
    law_every_hex_digit_has_its_value(lo, b);
    assert(hi * 16 + lo == b) by (nonlinear_arith)
        requires
            hi == (b / 16) as int,
            lo == (b % 16) as int,
    ;
}

/// Percent-decoding undoes percent-encoding: however bytes are spelled — each as itself,
/// unless it is a `%`, or as an escape with uppercase or lowercase digits — decoding the
/// spelling gives the bytes back.
pub proof fn law_decoding_undoes_any_spelling(bytes: Seq<u8>, how: Seq<u8>)
    requires
        how.len() == bytes.len(),
        forall|i: int| 0 <= i < bytes.len() && how[i] == 0 ==> bytes[i] != 37,
    ensures
        unescaped(spelled(bytes, how)) == Some(bytes),
    decreases bytes.len(),
{
    if bytes.len() > 0 {
        let rest = spelled(bytes.drop_first(), how.drop_first());
        assert forall|i: int|
            0 <= i < bytes.drop_first().len() && how.drop_first()[i] == 0 implies bytes.drop_first()[i]
            != 37 by {
            assert(how.drop_first()[i] == how[i + 1]);
            assert(bytes.drop_first()[i] == bytes[i + 1]);
        }
        law_decoding_undoes_any_spelling(bytes.drop_first(), how.drop_first());
        let all = spelled(bytes, how);
        if how[0] == 0 {
            assert(all =~= seq![bytes[0]] + rest);
            assert(all.drop_first() =~= rest);
        } else {
            let e = escape_of(bytes[0], how[0] == 1);
            lemma_escape_reads_back(bytes[0], how[0] == 1);
            assert(all =~= e + rest);
            assert(all[1] == e[1] && all[2] == e[2]);
            assert(all.skip(3) =~= rest);
        }
        assert(seq![bytes[0]] + bytes.drop_first() =~= bytes);
    }
}

/// A broken escape spoils the whole request: wherever after well-spelled bytes a `%`
/// comes that is not followed by two hexadecimal digits, nothing is decoded at all.
pub proof fn law_a_broken_escape_decodes_to_nothing(bytes: Seq<u8>, how: Seq<u8>, tail: Seq<u8>)
    requires
        how.len() == bytes.len(),
        forall|i: int| 0 <= i < bytes.len() && how[i] == 0 ==> bytes[i] != 37,
        tail.len() > 0,
        tail[0] == 37,
        tail.len() < 3 || hex_value(tail[1]) is None || hex_value(tail[2]) is None,
    ensures
        unescaped(spelled(bytes, how) + tail) is None,
    decreases bytes.len(),
{
    if bytes.len() > 0 {
        let rest = spelled(bytes.drop_first(), how.drop_first());
        assert forall|i: int|
            0 <= i < bytes.drop_first().len() && how.drop_first()[i] == 0 implies bytes.drop_first()[i]
            != 37 by {
            assert(how.drop_first()[i] == how[i + 1]);
            assert(bytes.drop_first()[i] == bytes[i + 1]);
        }
        law_a_broken_escape_decodes_to_nothing(bytes.drop_first(), how.drop_first(), tail);
        let all = spelled(bytes, how) + tail;
        if how[0] == 0 {
            assert(all =~= seq![bytes[0]] + (rest + tail));
            assert(all.drop_first() =~= rest + tail);
        } else {
            let e = escape_of(bytes[0], how[0] == 1);
            lemma_escape_reads_back(bytes[0], how[0] == 1);
            assert(all =~= e + (rest + tail));
            assert(all[1] == e[1] && all[2] == e[2]);
            assert(all.skip(3) =~= rest + tail);
        }
    } else {
        assert(spelled(bytes, how) + tail =~= tail);
    }
}

/// A link to a file reaches the file its name spells: a request made of ASCII characters
/// that percent-encode the UTF-8 of `text`, with escapes in either case, decodes to
/// `text`.
pub proof fn law_a_percent_encoded_name_decodes_to_itself(text: Seq<char>, how: Seq<u8>, request: Seq<char>)
    requires
        how.len() == vstd::utf8::encode_utf8(text).len(),
        forall|i: int|
            0 <= i < how.len() && how[i] == 0 ==> vstd::utf8::encode_utf8(text)[i] != 37,
        vstd::utf8::is_ascii_chars(request),
        request.len() == spelled(vstd::utf8::encode_utf8(text), how).len(),
        forall|i: int|
            0 <= i < request.len() ==> #[trigger] request[i] as u8 == spelled(
                vstd::utf8::encode_utf8(text),
                how,
            )[i],
    ensures
        decoded(request) == Some(text),
{
    let bytes = vstd::utf8::encode_utf8(text);
    law_decoding_undoes_any_spelling(bytes, how);
    vstd::utf8::is_ascii_chars_encode_utf8(request);
    assert(vstd::utf8::encode_utf8(request) =~= spelled(bytes, how));
    vstd::utf8::encode_utf8_valid_utf8(text);
    vstd::utf8::encode_utf8_decode_utf8(text);
}

/// Where a navigation leads, given where the view is, the document's folder, where the
/// navigation would go, whether the reader clicked, and what request the target is if it
/// is one.
pub open spec fn way(
    here: Seq<char>,
    root: Option<Seq<char>>,
    target: Seq<char>,
    activated: bool,
    asked: Option<Asking>,
) -> Way {
    let page = fragment_split(here).0;
    let (destination, fragment) = fragment_split(target);
    if page.len() == 0 {
        if occurs_at(target, "axiomd://"@, 0) {
            Way::Stay
        } else {
            Way::Refuse
        }
    } else if destination == page {
        Way::Stay
    } else if !activated {
        Way::Refuse
    } else if asked is Some {
        Way::Ask(asked.unwrap())
    } else if occurs_at(destination, page, 0) {
        match root {
            None => Way::Refuse,
            Some(r) => match decoded(destination.skip(page.len() as int)) {
                None => Way::Refuse,
                Some(relative) => match under(r, relative) {
                    None => Way::Refuse,
                    Some(file) => Way::Reach(file, fragment),
                },
            },
        }
    } else if browsable(target) {
        Way::External(target)
    } else {
        Way::Refuse
    }
}

/// `uri` cut at its first `#`.
pub fn split_fragment(uri: &str) -> (parts: (String, Option<String>))
    ensures
        (parts.0@, text_of(parts.1)) == fragment_split(uri@),
{
    let chars = chars_of(uri);
    match split_once(&chars, &['#']) {
        Some((before, after)) => {
            assert(seq!['#'] =~= [ '#' ]@);
            (string_of(&before), Some(string_of(&after)))
        },
        None => {
            assert(seq!['#'] =~= [ '#' ]@);
            (string_of(&chars), None)
        },
    }
}

/// `uri` without its fragment.
pub fn before_fragment(uri: &str) -> (page: String)
    ensures
        page@ == fragment_split(uri@).0,
{
    split_fragment(uri).0
}

/// Whether `target` may be handed to the desktop's browser.
///
/// Deliberately three schemes rather than "anything with a scheme": `file:` would turn
/// a document into a way to open arbitrary local paths, and `data:` a way to hand the
/// browser content the reader never saw.
pub fn opens_in_a_browser(target: &str) -> (yes: bool)
    ensures
        yes == browsable(target@),
{
    let chars = chars_of(target);
    assert(seq![':'] =~= [ ':' ]@);
    match split_once(&chars, &[':']) {
        Some((scheme, _)) => {
            eq_ignore_ascii_case(&scheme, &chars_of("http")) || eq_ignore_ascii_case(
                &scheme,
                &chars_of("https"),
            ) || eq_ignore_ascii_case(&scheme, &chars_of("mailto"))
        },
        None => false,
    }
}

fn hex(b: u8) -> (v: Option<u8>)
    ensures
        match v {
            Some(x) => hex_value(b) == Some(x as int),
            None => hex_value(b) is None,
        },
{
    if 48 <= b && b <= 57 {
        Some(b - 48)
    } else if 97 <= b && b <= 102 {
        Some(b - 87)
    } else if 65 <= b && b <= 70 {
        Some(b - 55)
    } else {
        None
    }
}

fn escaped(a: u8, b: u8) -> (v: Option<u8>)
    ensures
        v == escaped_byte(a, b),
{
    match (hex(a), hex(b)) {
        (Some(x), Some(y)) => Some(x * 16 + y),
        _ => None,
    }
}

/// The bytes `bytes` stand for once their `%` escapes are decoded.
fn unescape(bytes: &[u8]) -> (out: Option<Vec<u8>>)
    ensures
        match out {
            Some(o) => unescaped(bytes@) == Some(o@),
            None => unescaped(bytes@) is None,
        },
{
    let mut pieces: Vec<u8> = Vec::new();
    let mut at: usize = 0;
    assert(bytes@.skip(0) =~= bytes@);
    assert(pieces@ + Seq::<u8>::empty() =~= pieces@);
    while at < bytes.len()
        invariant
            at <= bytes.len(),
            unescaped(bytes@) == match unescaped(bytes@.skip(at as int)) {
                Some(t) => Some(pieces@ + t),
                None => None,
            },
        decreases bytes.len() - at,
    {
        let ghost rest = bytes@.skip(at as int);
        assert(rest[0] == bytes@[at as int]);
        if bytes[at] == 37 {
            if bytes.len() - at < 3 {
                return None;
            }
            assert(rest.skip(3) =~= bytes@.skip(at + 3));
            assert(rest[1] == bytes@[at + 1]);
            assert(rest[2] == bytes@[at + 2]);
            let b = match escaped(bytes[at + 1], bytes[at + 2]) {
                Some(b) => b,
                None => {
                    return None;
                },
            };
            let ghost before = pieces@;
            pieces.push(b);
            proof {
                match unescaped(bytes@.skip(at + 3)) {
                    Some(t) => {
                        assert(pieces@ + t =~= before + (seq![b] + t));
                    },
                    None => {},
                }
            }
            at = at + 3;
        } else {
            assert(rest.drop_first() =~= bytes@.skip(at + 1));
            let b = bytes[at];
            let ghost before = pieces@;
            pieces.push(b);
            proof {
                match unescaped(bytes@.skip(at + 1)) {
                    Some(t) => {
                        assert(pieces@ + t =~= before + (seq![b] + t));
                    },
                    None => {},
                }
            }
            at = at + 1;
        }
    }
    assert(bytes@.skip(at as int) =~= Seq::<u8>::empty());
    assert(pieces@ + Seq::<u8>::empty() =~= pieces@);
    Some(pieces)
}

/// Percent-decoding, because a link to `release notes.md` arrives spelled
/// `release%20notes.md`. Anything that is not valid UTF-8 once decoded names no file.
pub fn decode(request: &str) -> (text: Option<String>)
    ensures
        text_of(text) == decoded(request@),
{
    let bytes = request.as_bytes();
    match unescape(bytes) {
        Some(decoded_bytes) => match core::str::from_utf8(decoded_bytes.as_slice()) {
            Ok(s) => Some(s.to_owned()),
            Err(_) => None,
        },
        None => None,
    }
}

/// Decides one navigation.
///
/// `here` is the URI the view is currently showing (empty before its first load),
/// `root` the directory the document lives in — `None` for an untitled document, which
/// lives nowhere and can therefore reach nothing — `target` where the navigation would
/// go, `activated` whether the reader clicked a link to cause it, and `asked` the
/// request `target` spells, if it spells one.
pub fn follow(here: &str, root: Option<&str>, target: &str, activated: bool, asked: Option<Request>) -> (route: Route)
    ensures
        route@ == way(
            here@,
            match root {
                Some(r) => Some(r@),
                None => None,
            },
            target@,
            activated,
            match asked {
                Some(r) => Some(r@),
                None => None,
            },
        ),
{
    let page = chars_of(&before_fragment(here));
    let target_chars = chars_of(target);
    if page.len() == 0 {
        let scheme = chars_of("axiomd://");
        return if stands_at(&target_chars, &scheme, 0) {
            Route::Decided(Follow::Stay)
        } else {
            Route::Decided(Follow::Refuse)
        };
    }
    let (destination, fragment) = split_fragment(target);
    let destination = chars_of(&destination);
    if same_chars(&destination, &page) {
        return Route::Decided(Follow::Stay);
    }
    if !activated {
        return Route::Decided(Follow::Refuse);
    }
    if let Some(request) = asked {
        return Route::Decided(Follow::Ask(request));
    }
    if let Some(relative) = strip_prefix(&destination, &page) {
        let root = match root {
            Some(root) => root,
            None => return Route::Decided(Follow::Refuse),
        };
        let relative = match decode(&string_of(&relative)) {
            Some(relative) => relative,
            None => return Route::Decided(Follow::Refuse),
        };
        return match path_under(root, &relative) {
            Some(file) => Route::Reach { file, fragment },
            None => Route::Decided(Follow::Refuse),
        };
    }
    if opens_in_a_browser(target) {
        return Route::Decided(Follow::External { uri: target.to_owned() });
    }
    Route::Decided(Follow::Refuse)
}

/// The components of a path as `Path::starts_with` compares them: whether it starts at
/// the root, and its names with empty and `.` components left out.
pub open spec fn components(p: Seq<char>) -> (bool, Seq<Seq<char>>) {
    (p.len() > 0 && p[0] == '/', named_only(segments(p)))
}

/// A component that names something: neither empty nor `.`.
pub open spec fn names_something(s: Seq<char>) -> bool {
    s.len() > 0 && s != seq!['.']
}

/// The components of `parts` that name something, in order.
pub open spec fn named_only(parts: Seq<Seq<char>>) -> Seq<Seq<char>> {
    parts.filter(|s: Seq<char>| names_something(s))
}

proof fn lemma_named_only_step(parts: Seq<Seq<char>>, k: int)
    requires
        0 <= k < parts.len(),
    ensures
        named_only(parts.take(k + 1)) == (if names_something(parts[k]) {
            named_only(parts.take(k)).push(parts[k])
        } else {
            named_only(parts.take(k))
        }),
{
    reveal(Seq::filter);
    assert(parts.take(k + 1).drop_last() =~= parts.take(k));
    assert(parts.take(k + 1).last() == parts[k]);
}

/// `path` lies under `root`, as `Path::starts_with` answers it: the same start, and
/// `root`'s components a prefix of `path`'s.
pub open spec fn lies_under(path: Seq<char>, root: Seq<char>) -> bool {
    let (p_absolute, p_names) = components(path);
    let (r_absolute, r_names) = components(root);
    &&& p_absolute == r_absolute
    &&& r_names.len() <= p_names.len()
    &&& p_names.take(r_names.len() as int) == r_names
}

/// The file a relative link leads to once the filesystem has been asked: `resolved` is
/// where `lexical` really leads when it exists, and `resolved_root` where the
/// document's folder does. A file that exists must still be under the folder once
/// symlinks are followed; one that does not is the lexical path, and saying it is
/// broken is the window's job.
pub open spec fn containment(
    lexical: Seq<char>,
    resolved: Option<Seq<char>>,
    resolved_root: Option<Seq<char>>,
) -> Option<Seq<char>> {
    match resolved {
        None => Some(lexical),
        Some(file) => match resolved_root {
            None => None,
            Some(root) => if lies_under(file, root) {
                Some(file)
            } else {
                None
            },
        },
    }
}

pub(crate) fn names_of(p: &[char]) -> (names: (bool, Vec<Vec<char>>))
    ensures
        names.0 == components(p@).0,
        names.1@.len() == components(p@).1.len(),
        forall|i: int| 0 <= i < names.1@.len() ==> (#[trigger] names.1@[i])@ == components(p@).1[i],
{
    let absolute = p.len() > 0 && p[0] == '/';
    let mut names: Vec<Vec<char>> = Vec::new();
    let ghost segs = segments(p@);
    let parts = crate::paths::segments_of(p);
    let mut k: usize = 0;
    assert(named_only(segs.take(0)) =~= Seq::<Seq<char>>::empty()) by {
        reveal(Seq::filter);
    }
    while k < parts.len()
        invariant
            k <= parts@.len(),
            parts@.len() == segs.len(),
            segs == segments(p@),
            forall|j: int| 0 <= j < parts@.len() ==> (#[trigger] parts@[j])@ == segs[j],
            names@.len() == named_only(segs.take(k as int)).len(),
            forall|j: int|
                0 <= j < names@.len() ==> (#[trigger] names@[j])@ == named_only(segs.take(k as int))[j],
        decreases parts.len() - k,
    {
        let part = &parts[k];
        assert(parts@[k as int]@ == segs[k as int]);
        proof {
            lemma_named_only_step(segs, k as int);
        }
        let dot = part.len() == 1 && part[0] == '.';
        proof {
            if part@ == seq!['.'] {
                assert(part@.len() == 1);
            }
            if dot {
                assert(part@ =~= seq!['.']);
            }
        }
        if part.len() > 0 && !dot {
            let ghost before = names@;
            names.push(crate::text::slice_chars(part, 0, part.len()));
            assert(part@.subrange(0, part@.len() as int) =~= part@);
            assert(names@ =~= before.push(names@.last()));
        }
        k = k + 1;
    }
    assert(segs.take(parts.len() as int) =~= segs);
    (absolute, names)
}

fn lies_under_exec(path: &[char], root: &[char]) -> (yes: bool)
    ensures
        yes == lies_under(path@, root@),
{
    let (p_absolute, p_names) = names_of(path);
    let (r_absolute, r_names) = names_of(root);
    if p_absolute != r_absolute || r_names.len() > p_names.len() {
        return false;
    }
    let ghost pn = components(path@).1;
    let ghost rn = components(root@).1;
    let mut i: usize = 0;
    while i < r_names.len()
        invariant
            i <= r_names@.len(),
            pn == components(path@).1,
            rn == components(root@).1,
            components(path@).0 == components(root@).0,
            r_names@.len() <= p_names@.len(),
            p_names@.len() == pn.len(),
            r_names@.len() == rn.len(),
            forall|j: int| 0 <= j < p_names@.len() ==> (#[trigger] p_names@[j])@ == pn[j],
            forall|j: int| 0 <= j < r_names@.len() ==> (#[trigger] r_names@[j])@ == rn[j],
            forall|j: int| 0 <= j < i ==> pn[j] == rn[j],
        decreases r_names.len() - i,
    {
        assert(p_names@[i as int]@ == pn[i as int]);
        assert(r_names@[i as int]@ == rn[i as int]);
        if !same_chars(&p_names[i], &r_names[i]) {
            assert(pn.take(rn.len() as int)[i as int] == pn[i as int]);
            return false;
        }
        i = i + 1;
    }
    assert(pn.take(rn.len() as int) =~= rn);
    true
}

/// The file a relative link leads to once the filesystem has been asked, or `None`
/// when a symlink takes it out of the document's folder.
pub fn contained(lexical: &str, resolved: Option<&str>, resolved_root: Option<&str>) -> (file: Option<String>)
    ensures
        text_of(file) == containment(
            lexical@,
            match resolved {
                Some(r) => Some(r@),
                None => None,
            },
            match resolved_root {
                Some(r) => Some(r@),
                None => None,
            },
        ),
{
    match resolved {
        None => Some(lexical.to_owned()),
        Some(file) => match resolved_root {
            None => None,
            Some(root) => {
                let f = chars_of(file);
                let r = chars_of(root);
                if lies_under_exec(&f, &r) {
                    Some(file.to_owned())
                } else {
                    None
                }
            },
        },
    }
}

/// What a link that reached `file` does: another Markdown document is read in this
/// window, at `fragment`; anything else beside the document goes to the desktop; and a
/// link the filesystem showed to lead outside the folder does nothing.
pub fn reached(file: Option<String>, fragment: Option<String>) -> (followed: Follow)
    ensures
        followed@ == match text_of(file) {
            None => Way::Refuse,
            Some(f) => if names_markdown(f) {
                Way::Document(f, text_of(fragment))
            } else {
                Way::Attachment(f)
            },
        },
{
    match file {
        None => Follow::Refuse,
        Some(file) => if is_markdown(&file) {
            Follow::Document { file, fragment }
        } else {
            Follow::Attachment { file }
        },
    }
}

/// Nothing leaves the document unless the reader clicked: a navigation the reader did
/// not activate either stays on the page it is on or is refused.
pub proof fn law_nothing_leaves_without_a_click(
    here: Seq<char>,
    root: Option<Seq<char>>,
    target: Seq<char>,
    asked: Option<Asking>,
)
    ensures
        way(here, root, target, false, asked) is Stay || way(here, root, target, false, asked) is Refuse,
{
}

/// An untitled document lives nowhere, so a relative link in one reaches nothing on
/// disk: it never lands on a path.
pub proof fn law_an_untitled_document_reaches_no_file(
    here: Seq<char>,
    target: Seq<char>,
    activated: bool,
    asked: Option<Asking>,
)
    ensures
        !(way(here, None, target, activated, asked) is Reach),
{
}

/// A link that lands on a path lands under the document's folder: the path starts with
/// the folder.
pub proof fn law_a_link_lands_under_its_folder(
    here: Seq<char>,
    root: Seq<char>,
    target: Seq<char>,
    activated: bool,
    asked: Option<Asking>,
)
    ensures
        way(here, Some(root), target, activated, asked) matches Way::Reach(file, _) ==> file.len()
            >= root.len() && file.take(root.len() as int) == root,
{
    let w = way(here, Some(root), target, activated, asked);
    if let Way::Reach(file, _) = w {
        let page = fragment_split(here).0;
        let destination = fragment_split(target).0;
        let relative = decoded(destination.skip(page.len() as int)).unwrap();
        let names = crate::paths::walked(segments(relative)).unwrap();
        crate::paths::law_what_is_reached_starts_with_the_root(root, names);
    }
}

/// A link handed to the browser is handed over whole, fragment and all, and only an
/// `http`, `https` or `mailto` link the reader clicked is; a file reached keeps the
/// link's fragment, so the page opens at the section the link names.
pub proof fn law_a_link_is_handed_over_whole(
    here: Seq<char>,
    root: Option<Seq<char>>,
    target: Seq<char>,
    activated: bool,
    asked: Option<Asking>,
)
    ensures
        way(here, root, target, activated, asked) matches Way::External(u) ==> u == target && activated
            && browsable(target),
        way(here, root, target, activated, asked) matches Way::Reach(_, f) ==> f == fragment_split(
            target,
        ).1,
        ({
            let page = fragment_split(here).0;
            let destination = fragment_split(target).0;
            &&& page.len() > 0
            &&& destination != page
            &&& activated
            &&& asked is None
            &&& !occurs_at(destination, page, 0)
            &&& browsable(target)
        }) ==> way(here, root, target, activated, asked) == Way::External(target),
{
}

/// The browser is given `http`, `https` and `mailto` links, in any ASCII case, and no
/// others: never a `file:` or `javascript:` one, nor anything with no scheme.
pub proof fn law_only_web_and_mail_links_go_to_the_browser(rest: Seq<char>, target: Seq<char>)
    ensures
        browsable("http:"@ + rest),
        browsable("https:"@ + rest),
        browsable("mailto:"@ + rest),
        browsable("HTTPS:"@ + rest),
        !browsable("file:"@ + rest),
        !browsable("javascript:"@ + rest),
        (forall|i: int| 0 <= i < target.len() ==> target[i] != ':') ==> !browsable(target),
{
    reveal_strlit("http");
    reveal_strlit("https");
    reveal_strlit("mailto");
    reveal_strlit("http:");
    reveal_strlit("https:");
    reveal_strlit("mailto:");
    reveal_strlit("HTTPS:");
    reveal_strlit("file:");
    reveal_strlit("javascript:");
    lemma_scheme_cut("http:"@, rest);
    lemma_scheme_cut("https:"@, rest);
    lemma_scheme_cut("mailto:"@, rest);
    lemma_scheme_cut("HTTPS:"@, rest);
    lemma_scheme_cut("file:"@, rest);
    lemma_scheme_cut("javascript:"@, rest);
    assert(("file:"@).drop_last() =~= seq!['f', 'i', 'l', 'e']);
    assert(!same_ignoring_ascii_case(seq!['f', 'i', 'l', 'e'], "http"@)) by {
        assert(crate::text::folded(seq!['f', 'i', 'l', 'e'][0]) != crate::text::folded("http"@[0]));
    }
    assert(("javascript:"@).drop_last().len() == 10);
    crate::text::lemma_first_from(target, seq![':'], 0);
    if let Some(k) = crate::text::first_from(target, seq![':'], 0) {
        assert(target.subrange(k, k + 1)[0] == target[k]);
    }
}

proof fn lemma_scheme_cut(scheme: Seq<char>, rest: Seq<char>)
    requires
        scheme.len() > 0,
        scheme.last() == ':',
        forall|i: int| 0 <= i < scheme.len() - 1 ==> scheme[i] != ':',
    ensures
        cut_once(scheme + rest, seq![':']) == Some((scheme.drop_last(), rest)),
{
    let s = scheme + rest;
    let at = scheme.len() - 1;
    crate::text::lemma_first_from(s, seq![':'], 0);
    assert(crate::text::occurs_at(s, seq![':'], at)) by {
        assert(s.subrange(at, at + 1) =~= seq![':']);
    }
    match crate::text::first_from(s, seq![':'], 0) {
        Some(k) => {
            if k < at {
                assert(s.subrange(k, k + 1)[0] == s[k]);
            }
        },
        None => {},
    }
    assert(s.take(at) =~= scheme.drop_last());
    assert(s.skip(at + 1) =~= rest);
}

/// A file reached through a symlink counts only if it still lies under the folder.
pub proof fn law_a_symlink_cannot_lead_out(lexical: Seq<char>, file: Seq<char>, root: Seq<char>)
    ensures
        containment(lexical, Some(file), Some(root)) is Some ==> lies_under(file, root),
{
}

/// The two halves of containment together, for a request for a file under `root`. The
/// path it is spelled as starts with `root`, or there is none because it climbs. Of
/// that path, what is reached is the path itself when nothing is there (`resolved` is
/// `None`), and otherwise the file it really leads to, only while that file lies under
/// where `root` really is.
pub proof fn law_a_request_never_leaves_its_folder(
    root: Seq<char>,
    request: Seq<char>,
    resolved: Option<Seq<char>>,
    resolved_root: Option<Seq<char>>,
)
    ensures
        under(root, request) matches Some(lexical) ==> lexical.len() >= root.len() && lexical.take(
            root.len() as int,
        ) == root,
        under(root, request) matches Some(lexical) ==> match containment(lexical, resolved, resolved_root) {
            Some(file) => {
                ||| resolved is None && file == lexical
                ||| resolved == Some(file) && (resolved_root matches Some(r) && lies_under(file, r))
            },
            None => resolved is Some,
        },
{
    if let Some(lexical) = under(root, request) {
        let names = crate::paths::walked(segments(request)).unwrap();
        crate::paths::law_what_is_reached_starts_with_the_root(root, names);
    }
}

} // verus!
