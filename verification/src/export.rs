//! What an exported page may carry of the pictures its document names.
//!
//! The same containment rule the scheme serves a document's pictures under: a reference
//! that leaves the document's own folder is answered with nothing here too, so exporting
//! a document can read no more of the disk than displaying it can.
use vstd::prelude::*;
use crate::scheme::{content_type, declared_type};
use crate::text::{chars_of, slice_chars, string_of};

verus! {

/// A reference with its query and its fragment cut off: what names the file.
pub open spec fn file_part(reference: Seq<char>) -> Seq<char>
    decreases reference.len(),
{
    if reference.len() == 0 {
        seq![]
    } else if reference[0] == '?' || reference[0] == '#' {
        seq![]
    } else {
        seq![reference[0]] + file_part(reference.skip(1))
    }
}

/// The part of a picture reference that names a file: everything before its first `?`
/// or `#`.
pub fn picture_reference(reference: &str) -> (file: String)
    ensures
        file@ == file_part(reference@),
{
    let r = chars_of(reference);
    let mut end: usize = 0;
    assert(r@.skip(0) =~= r@);
    while end < r.len() && r[end] != '?' && r[end] != '#'
        invariant
            end <= r.len(),
            file_part(r@) == r@.take(end as int) + file_part(r@.skip(end as int)),
        decreases r.len() - end,
    {
        proof {
            let rest = r@.skip(end as int);
            assert(rest[0] == r@[end as int]);
            assert(rest.skip(1) =~= r@.skip(end + 1));
            assert(r@.take(end + 1) =~= r@.take(end as int) + seq![r@[end as int]]);
        }
        end = end + 1;
    }
    proof {
        if end < r.len() {
            assert(r@.skip(end as int)[0] == r@[end as int]);
        }
        assert(r@.take(end as int) + Seq::<char>::empty() =~= r@.take(end as int));
    }
    let kept = slice_chars(&r, 0, end);
    assert(kept@ =~= r@.take(end as int));
    string_of(&kept)
}

/// One picture as the bytes an exported page carries.
#[derive(Debug, PartialEq, Eq)]
pub struct Picture {
    pub bytes: Vec<u8>,
    pub content_type: String,
}

/// The picture an exported page carries for one reference, once the filesystem has been
/// asked: `resolved` is the file under the document's folder the reference names, or
/// `None` when it names nothing there (or the document has no folder); `read` is what
/// reading that file gave.
pub fn picture(resolved: Option<&str>, read: Option<Vec<u8>>) -> (p: Option<Picture>)
    ensures
        match p {
            Some(pic) => resolved is Some && read is Some && pic.bytes@ == read.unwrap()@
                && pic.content_type@ == declared_type(resolved.unwrap()@),
            None => resolved is None || read is None,
        },
{
    match resolved {
        Some(file) => match read {
            Some(bytes) => Some(Picture { bytes, content_type: content_type(file).to_owned() }),
            None => None,
        },
        None => None,
    }
}

/// How a print or an export ended.
#[derive(Debug, PartialEq, Eq)]
pub enum Outcome {
    /// It went out; an export names the file it wrote.
    Done(Option<String>),
    /// The reader changed their mind.
    Cancelled,
    /// It did not go out, and this is why.
    Failed(String),
}

/// What the window says beside the document about how a print or export (`done`, the
/// past tense of it) ended: what went out, what did not and why, or nothing at all for
/// one the reader cancelled — `name` is what the document is called.
pub open spec fn report_text(outcome: Outcome, done: Seq<char>, name: Seq<char>) -> Option<Seq<char>> {
    match outcome {
        Outcome::Done(file) => Some(done + seq![' '] + match file {
            Some(f) => crate::window::shown_name(f@),
            None => name,
        }),
        Outcome::Cancelled => None,
        Outcome::Failed(trouble) => Some(done + " nothing \u{2014} "@ + trouble@),
    }
}

/// What the window says beside the document about how a print or export ended.
pub fn report(outcome: Outcome, done: &str, name: &str) -> (said: Option<String>)
    ensures
        match said {
            Some(s) => report_text(outcome, done@, name@) == Some(s@),
            None => report_text(outcome, done@, name@) is None,
        },
{
    match outcome {
        Outcome::Done(file) => {
            let what = match &file {
                Some(f) => crate::window::file_name_shown(f.as_str()),
                None => name.to_owned(),
            };
            let mut t = chars_of(done);
            t.push(' ');
            crate::text::extend_chars(&mut t, &chars_of(what.as_str()));
            Some(string_of(&t))
        },
        Outcome::Cancelled => None,
        Outcome::Failed(trouble) => {
            let mut t = chars_of(done);
            crate::text::extend_chars(&mut t, &chars_of(" nothing \u{2014} "));
            crate::text::extend_chars(&mut t, &chars_of(trouble.as_str()));
            Some(string_of(&t))
        },
    }
}

} // verus!
