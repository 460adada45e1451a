//! Which files are documents axiomd reads, decided by their names alone.
//!
//! The one place the question is decided: the folder a wikilink resolves against, the
//! link the reader clicks, and the name Save As offers all ask it here. It is a question
//! about the *name*, so it says nothing about what is on disk and nothing about the
//! shape of the path leading to it.
use vstd::prelude::*;
use crate::paths::{extension, extension_of};
use crate::text::{chars_of, eq_ignore_ascii_case, extend_chars, same_ignoring_ascii_case, string_of};

verus! {

/// The extensions axiomd claims, in the order it prefers them: the first is the one a
/// document with no name of its own is given.
pub const MARKDOWN_EXTENSIONS: [&'static str; 2] = ["md", "markdown"];

/// `p` names a Markdown document: its extension is `md` or `markdown`, in any ASCII
/// case.
pub open spec fn names_markdown(p: Seq<char>) -> bool {
    match extension(p) {
        Some(e) => same_ignoring_ascii_case(e, "md"@) || same_ignoring_ascii_case(e, "markdown"@),
        None => false,
    }
}

/// `p` names a page meant for a browser: its extension is `html` or `htm`, in any ASCII
/// case.
pub open spec fn names_a_page(p: Seq<char>) -> bool {
    match extension(p) {
        Some(e) => same_ignoring_ascii_case(e, "html"@) || same_ignoring_ascii_case(e, "htm"@),
        None => false,
    }
}

/// The name offered for a document called `name`: its own when it has an extension,
/// and a Markdown one when it has none.
pub open spec fn markdown_name(name: Seq<char>) -> Seq<char> {
    if extension(name) is Some {
        name
    } else {
        name + "."@ + "md"@
    }
}

fn extension_is_either(p: &str, first: &str, second: &str) -> (yes: bool)
    ensures
        yes == match extension(p@) {
            Some(e) => same_ignoring_ascii_case(e, first@) || same_ignoring_ascii_case(e, second@),
            None => false,
        },
{
    let path = chars_of(p);
    match extension_of(&path) {
        Some(e) => {
            let a = chars_of(first);
            let b = chars_of(second);
            eq_ignore_ascii_case(&e, &a) || eq_ignore_ascii_case(&e, &b)
        },
        None => false,
    }
}

/// Whether `file` is a document axiomd reads — asked of a bare name or of a whole
/// path, and answered the same way for both.
pub fn is_a_markdown_file(file: &str) -> (yes: bool)
    ensures
        yes == names_markdown(file@),
{
    extension_is_either(file, "md", "markdown")
}

/// Whether a file is a document is a question about its name: asked of the name alone
/// or of the name in any folder, the answer is the same.
pub proof fn law_a_folder_does_not_make_a_document(folder: Seq<char>, name: Seq<char>)
    requires
        folder.len() == 0 || folder.last() == '/',
        name.len() > 0,
        forall|i: int| 0 <= i < name.len() ==> name[i] != '/',
        name != seq!['.'],
        name != seq!['.', '.'],
    ensures
        names_markdown(folder + name) == names_markdown(name),
{
    crate::paths::law_a_folder_does_not_change_a_name(folder, name);
}

/// Whether a file a link reaches is one axiomd renders rather than one the desktop
/// opens.
pub fn is_markdown(file: &str) -> (yes: bool)
    ensures
        yes == names_markdown(file@),
{
    is_a_markdown_file(file)
}

/// Whether the reader named an exported file they mean to open in a browser.
pub fn is_a_page(file: &str) -> (yes: bool)
    ensures
        yes == names_a_page(file@),
{
    extension_is_either(file, "html", "htm")
}

/// `name` with a Markdown extension on it, for a document that carries none — what
/// Save As offers a document that has never had a name.
pub fn as_a_markdown_name(name: &str) -> (named: String)
    ensures
        named@ == markdown_name(name@),
{
    let chars = chars_of(name);
    match extension_of(&chars) {
        Some(_) => string_of(&chars),
        None => {
            let mut v = chars;
            extend_chars(&mut v, &chars_of("."));
            extend_chars(&mut v, &chars_of(MARKDOWN_EXTENSIONS[0]));
            proof {
                assert(MARKDOWN_EXTENSIONS[0]@ == "md"@);
            }
            string_of(&v)
        },
    }
}

/// What the Save As dialog offers as a name.
pub fn with_a_markdown_name(name: &str) -> (named: String)
    ensures
        named@ == markdown_name(name@),
{
    as_a_markdown_name(name)
}

/// How many folders deep a wikilink may reach.
pub const REACH: usize = 8;

/// How many documents beside the current one a wikilink may reach.
pub const MOST_DOCUMENTS: usize = 20_000;

/// What an entry found walking the document's folder is.
#[derive(Clone, Copy, PartialEq, Eq, Debug, Structural)]
pub enum Kind {
    Folder,
    File,
    Other,
}

/// What the walk of a document's folder does with one entry.
#[derive(Clone, Copy, PartialEq, Eq, Debug, Structural)]
pub enum Admitted {
    /// Pass it by.
    Skip,
    /// Walk into it, one level deeper.
    Descend,
    /// It is a document a wikilink may reach.
    Document,
}

/// What the walk does with the entry `name`, of kind `kind`, found `depth` folders
/// down: hidden entries are skipped — nobody links into `.git` — folders are walked
/// into until [`REACH`], and Markdown files are documents.
pub fn admitted(name: &str, kind: Kind, depth: usize) -> (what: Admitted)
    ensures
        name@.len() > 0 && name@[0] == '.' ==> what == Admitted::Skip,
        !(name@.len() > 0 && name@[0] == '.') ==> what == match kind {
            Kind::Folder => if depth + 1 < REACH {
                Admitted::Descend
            } else {
                Admitted::Skip
            },
            Kind::File => if names_markdown(name@) {
                Admitted::Document
            } else {
                Admitted::Skip
            },
            Kind::Other => Admitted::Skip,
        },
{
    let chars = chars_of(name);
    if chars.len() > 0 && chars[0] == '.' {
        return Admitted::Skip;
    }
    match kind {
        Kind::Folder => if depth < REACH - 1 {
            Admitted::Descend
        } else {
            Admitted::Skip
        },
        Kind::File => if is_a_markdown_file(name) {
            Admitted::Document
        } else {
            Admitted::Skip
        },
        Kind::Other => Admitted::Skip,
    }
}

} // verus!
