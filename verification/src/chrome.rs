//! What the About dialog reads out of the application's metainfo: the text of an
//! element, the address filed under a kind of link, and the licence GTK names for the
//! one AppStream names.
//!
//! The metainfo is a file in this repository with a validator of its own, so what is
//! wanted here is the handful of elements the dialog shows rather than an XML parser.
use vstd::prelude::*;
use crate::text::{chars_of, cut_once, same_text, split_once, string_of, trim, trimmed};

verus! {

/// The text between the first `<tag …>` in `xml` and the `</tag>` after it, attributes
/// and surrounding white space left out.
pub open spec fn element_text(xml: Seq<char>, tag: Seq<char>) -> Option<Seq<char>> {
    match cut_once(xml, seq!['<'] + tag) {
        Some((_, rest)) => match cut_once(rest, seq!['>']) {
            Some((_, inside)) => match cut_once(inside, seq!['<', '/'] + tag + seq!['>']) {
                Some((found, _)) => Some(trimmed(found)),
                None => None,
            },
            None => None,
        },
        None => None,
    }
}

/// The text of the first `<tag>` in `xml`.
pub fn element(xml: &str, tag: &str) -> (found: Option<String>)
    ensures
        match found {
            Some(f) => element_text(xml@, tag@) == Some(f@),
            None => element_text(xml@, tag@) is None,
        },
{
    let x = chars_of(xml);
    let t = chars_of(tag);
    let mut opening = vec!['<'];
    crate::text::extend_chars(&mut opening, &t);
    assert(opening@ =~= seq!['<'] + tag@);
    let rest = match split_once(&x, &opening) {
        Some((_, rest)) => rest,
        None => return None,
    };
    let close = vec!['>'];
    assert(close@ =~= seq!['>']);
    let inside = match split_once(&rest, &close) {
        Some((_, inside)) => inside,
        None => return None,
    };
    let mut closing = vec!['<', '/'];
    crate::text::extend_chars(&mut closing, &t);
    closing.push('>');
    assert(closing@ =~= seq!['<', '/'] + tag@ + seq!['>']);
    match split_once(&inside, &closing) {
        Some((found, _)) => Some(string_of(&trim(&found))),
        None => None,
    }
}

/// The address filed under `<url type="kind">` in `xml`, white space left out.
pub open spec fn link_text(xml: Seq<char>, kind: Seq<char>) -> Option<Seq<char>> {
    match cut_once(xml, "<url type=\""@ + kind + "\">"@) {
        Some((_, rest)) => match cut_once(rest, "</url>"@) {
            Some((url, _)) => Some(trimmed(url)),
            None => None,
        },
        None => None,
    }
}

/// The address AppStream files under `<url type="kind">`.
pub fn link(xml: &str, kind: &str) -> (url: Option<String>)
    ensures
        match url {
            Some(u) => link_text(xml@, kind@) == Some(u@),
            None => link_text(xml@, kind@) is None,
        },
{
    let x = chars_of(xml);
    let mut opening = chars_of("<url type=\"");
    crate::text::extend_chars(&mut opening, &chars_of(kind));
    crate::text::extend_chars(&mut opening, &chars_of("\">"));
    assert(opening@ =~= "<url type=\""@ + kind@ + "\">"@);
    let rest = match split_once(&x, &opening) {
        Some((_, rest)) => rest,
        None => return None,
    };
    match split_once(&rest, &chars_of("</url>")) {
        Some((url, _)) => Some(string_of(&trim(&url))),
        None => None,
    }
}

/// The licences the About dialog can name.
#[derive(Clone, Copy, Debug, PartialEq, Eq, Structural)]
pub enum License {
    Gpl30,
    Gpl30Only,
    /// Anything not known here: a dialog claiming a licence the project is not under is
    /// worse than one that says nothing.
    Unknown,
}

/// The licence GTK names, from the SPDX identifier AppStream names.
pub fn license(spdx: &str) -> (l: License)
    ensures
        l == (if spdx@ == "GPL-3.0-or-later"@ {
            License::Gpl30
        } else if spdx@ == "GPL-3.0-only"@ {
            License::Gpl30Only
        } else {
            License::Unknown
        }),
{
    if same_text(spdx, "GPL-3.0-or-later") {
        License::Gpl30
    } else if same_text(spdx, "GPL-3.0-only") {
        License::Gpl30Only
    } else {
        License::Unknown
    }
}

/// What hovering a control says: its name, and the key it is on in brackets when it is
/// on one. A screen reader is given the name alone — GTK announces the key itself.
pub open spec fn tooltip_text(saying: Seq<char>, key: Option<Seq<char>>) -> Seq<char> {
    match key {
        Some(k) => saying + " ("@ + k + ")"@,
        None => saying,
    }
}

/// What hovering a control named `saying` says, when the action it fires is on the key
/// GTK spells `key`.
pub fn tooltip(saying: &str, key: Option<&str>) -> (said: String)
    ensures
        said@ == tooltip_text(saying@, match key {
            Some(k) => Some(k@),
            None => None,
        }),
{
    match key {
        Some(k) => {
            let mut t = chars_of(saying);
            crate::text::extend_chars(&mut t, &chars_of(" ("));
            crate::text::extend_chars(&mut t, &chars_of(k));
            crate::text::extend_chars(&mut t, &chars_of(")"));
            string_of(&t)
        },
        None => saying.to_owned(),
    }
}

} // verus!
