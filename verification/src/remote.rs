//! The one network request axiomd makes, and the conditions it makes it under: the
//! reader pressed a placeholder card, and the app goes and gets that one image.
//!
//! Which sources are fetched at all, the address actually requested, and what a reply
//! has to be to be believed are decided here; the transfer itself is the platform's.
use vstd::prelude::*;
use crate::text::{
    chars_of, cut_once, eq_ignore_ascii_case, extend_chars, occurs_at, same_ignoring_ascii_case,
    split_once, stands_at, string_of, strip_prefix, trim, trimmed,
};

verus! {

/// The largest image axiomd will hold for a document: a reader pressing a button asked
/// for a picture, not for an unbounded transfer into their window's memory.
pub const LARGEST_IMAGE: u64 = 64 * 1024 * 1024;

/// Whether a placeholder's source is something this app will go and get: an address
/// that starts `http://` or `https://`, in any ASCII case, or a protocol-relative one
/// that starts `//`.
pub open spec fn loadable(url: Seq<char>) -> bool {
    match cut_once(url, "//"@) {
        Some((scheme, _)) => scheme.len() == 0 || same_ignoring_ascii_case(scheme, "http:"@)
            || same_ignoring_ascii_case(scheme, "https:"@),
        None => false,
    }
}

/// The address to request for a source: a protocol-relative one spelled out as the
/// `https` it means, anything else as it stands.
pub open spec fn request_for(url: Seq<char>) -> Seq<char> {
    if occurs_at(url, "//"@, 0) {
        "https://"@ + url.skip(2)
    } else {
        url
    }
}

/// Whether a placeholder's source is something this app will go and get.
///
/// Only what a remote image is: `https` first, `http` because plenty of documentation
/// still references it, and a protocol-relative source as the `https` it means. A
/// `file:` or `data:` source is not fetched — a document must not be able to turn a
/// button press into a read of the reader's disk.
pub fn is_loadable(url: &str) -> (yes: bool)
    ensures
        yes == loadable(url@),
{
    let chars = chars_of(url);
    let slashes = chars_of("//");
    match split_once(&chars, &slashes) {
        Some((scheme, _)) => {
            if scheme.len() == 0 {
                return true;
            }
            eq_ignore_ascii_case(&scheme, &chars_of("http:")) || eq_ignore_ascii_case(
                &scheme,
                &chars_of("https:"),
            )
        },
        None => false,
    }
}

/// The URL to actually request, which is the source with the one thing a document's
/// `axiomd://` base cannot resolve — a protocol-relative source — spelled out.
pub fn requestable(url: &str) -> (request: String)
    ensures
        request@ == request_for(url@),
{
    let chars = chars_of(url);
    proof {
        reveal_strlit("//");
    }
    match strip_prefix(&chars, &chars_of("//")) {
        Some(rest) => {
            let mut spelled = chars_of("https://");
            extend_chars(&mut spelled, &rest);
            string_of(&spelled)
        },
        None => string_of(&chars),
    }
}

/// An image the reader asked for, as it came back.
#[derive(Debug, PartialEq, Eq)]
pub struct Fetched {
    pub body: Vec<u8>,
    pub content_type: String,
}

/// What a completed download amounts to, given the content type it was answered with
/// (`None` for a download with no response at all) and the bytes that came back.
pub open spec fn verdict(content_type: Option<Seq<char>>, body: Seq<u8>) -> Result<(Seq<u8>, Seq<char>), Seq<char>> {
    match content_type {
        None => Err("That address answered with nothing."@),
        Some(ct) => if !occurs_at(ct, "image/"@, 0) {
            Err("That address answered with "@ + (if ct.len() == 0 {
                "no content type"@
            } else {
                ct
            }) + ", which is not an image."@)
        } else if body.len() == 0 {
            Err("That address answered with an empty image."@)
        } else {
            Ok((body, ct))
        },
    }
}

/// Whether the reply is believed: an image, labelled as one, with something in it.
pub fn judged(content_type: Option<&str>, body: Vec<u8>) -> (outcome: Result<Fetched, String>)
    ensures
        match outcome {
            Ok(f) => verdict(
                match content_type {
                    Some(c) => Some(c@),
                    None => None,
                },
                body@,
            ) == Ok::<(Seq<u8>, Seq<char>), Seq<char>>((f.body@, f.content_type@)),
            Err(e) => verdict(
                match content_type {
                    Some(c) => Some(c@),
                    None => None,
                },
                body@,
            ) == Err::<(Seq<u8>, Seq<char>), Seq<char>>(e@),
        },
{
    let ct = match content_type {
        None => return Err("That address answered with nothing.".to_owned()),
        Some(ct) => ct,
    };
    let chars = chars_of(ct);
    if !stands_at(&chars, &chars_of("image/"), 0) {
        let mut said = chars_of("That address answered with ");
        if chars.len() == 0 {
            extend_chars(&mut said, &chars_of("no content type"));
        } else {
            extend_chars(&mut said, &chars);
        }
        extend_chars(&mut said, &chars_of(", which is not an image."));
        return Err(string_of(&said));
    }
    if body.len() == 0 {
        return Err("That address answered with an empty image.".to_owned());
    }
    Ok(Fetched { body, content_type: ct.to_owned() })
}

/// What the reader is told of a source this app does not fetch.
pub const NOT_FETCHED: &'static str = "axiomd only loads images over http and https.";

/// What the reader is told when the downloader would not take the address.
pub const NOT_REQUESTED: &'static str = "This image could not be requested.";

/// What the reader is told when there is no scratch file to download into.
pub const NOWHERE_TO_PUT: &'static str = "There is nowhere to put this image.";

/// The first step of fetching the image at `url`: the address handed to the downloader,
/// or, for a source this app does not go and get, what the reader is told instead.
pub open spec fn first_step(url: Seq<char>) -> Result<Seq<char>, Seq<char>> {
    if loadable(url) {
        Ok(url)
    } else {
        Err(NOT_FETCHED@)
    }
}

/// The decision a press on a placeholder starts with: the address the downloader is
/// given, or the reason nothing is fetched at all. Nothing else starts a transfer.
pub fn load(url: &str) -> (step: Result<String, String>)
    ensures
        match step {
            Ok(address) => first_step(url@) == Ok::<Seq<char>, Seq<char>>(address@),
            Err(told) => first_step(url@) == Err::<Seq<char>, Seq<char>>(told@),
        },
{
    if is_loadable(url) {
        Ok(url.to_owned())
    } else {
        Err(NOT_FETCHED.to_owned())
    }
}

/// Whether a download has gone past what axiomd will hold and must be cancelled.
pub fn too_large(received: u64) -> (cancel: bool)
    ensures
        cancel == (received > LARGEST_IMAGE),
{
    received > LARGEST_IMAGE
}

/// A downloader's error as something to show a reader: its message as a sentence, or
/// a sentence of axiomd's own for one with nothing to say.
pub fn readable(message: &str) -> (said: String)
    ensures
        said@ == (if trimmed(message@).len() == 0 {
            "This image could not be loaded."@
        } else {
            trimmed(message@) + "."@
        }),
{
    let t = trim(&chars_of(message));
    if t.len() == 0 {
        return "This image could not be loaded.".to_owned();
    }
    let mut said = t;
    extend_chars(&mut said, &chars_of("."));
    string_of(&said)
}

/// The file a download is written to.
pub struct Scratch {
    path: String,
}

impl Scratch {
    /// A scratch file at `path`.
    pub fn new(path: &str) -> (s: Scratch)
        ensures
            s.path_spec() == path@,
    {
        Scratch { path: path.to_owned() }
    }

    /// Where the file is.
    pub closed spec fn path_spec(&self) -> Seq<char> {
        self.path@
    }

    /// Where the downloader is told to put the bytes.
    pub fn destination(&self) -> (d: String)
        ensures
            d@ == self.path_spec(),
    {
        self.path.clone()
    }
}

/// The one answer a fetch owes the reader, shared by everything that could give it:
/// the reply, a failure, and the size limit. Whoever comes first takes it, so the reader
/// is answered exactly once.
pub struct Answer {
    given: bool,
}

impl Answer {
    /// An answer not given yet.
    pub fn new() -> (a: Answer)
        ensures
            !a.is_given(),
    {
        Answer { given: false }
    }

    /// Whether the answer has been given.
    pub closed spec fn is_given(&self) -> bool {
        self.given
    }

    /// Claims the answer: `true` for the first claim, which is the one that tells the
    /// reader, and `false` for every claim after it.
    pub fn give(&mut self) -> (first: bool)
        ensures
            (first, final(self).is_given()) == claim(old(self).is_given()),
    {
        let first = !self.given;
        self.given = true;
        first
    }
}

/// What claiming an answer that was already given (`given`) or not amounts to: whether
/// this claim is the one that tells the reader, and whether the answer has been given
/// afterwards.
pub open spec fn claim(given: bool) -> (bool, bool) {
    (!given, true)
}

/// Of all the ways a fetch can end, only the first is told to the reader: the first
/// claim of a fresh answer tells, and no claim after any claim ever does.
pub proof fn law_the_reader_is_answered_once(given: bool)
    ensures
        claim(false).0,
        !claim(claim(given).1).0,
{
}

/// Nothing but an `http` or `https` address, or a protocol-relative one, is ever
/// fetched: a source with no `//` in it — a `data:` source among them — is not.
pub proof fn law_only_a_remote_address_is_fetched(url: Seq<char>)
    ensures
        cut_once(url, "//"@) is None ==> !loadable(url),
{
}

/// A reply is believed exactly when it is labelled `image/…` and has something in it,
/// and a believed reply is kept as it came: its bytes, and the type it was answered
/// with.
pub proof fn law_a_believed_reply_is_kept_as_it_came(content_type: Option<Seq<char>>, body: Seq<u8>)
    ensures
        verdict(content_type, body) is Ok <==> (content_type matches Some(ct) && (ct.len() >= 6
            && ct.take(6) == "image/"@ && body.len() > 0)),
        verdict(content_type, body) matches Ok((b, t)) ==> b == body && content_type == Some(t),
{
    if let Some(ct) = content_type {
        if ct.len() >= 6 {
            assert(ct.subrange(0, 6) =~= ct.take(6));
        }
        reveal_strlit("image/");
    }
}

/// What the reader is told of a reply that is not believed: that nothing came, that what
/// came is not an image — naming the type it came as — or that the image is empty.
pub proof fn law_a_refused_reply_says_why(content_type: Option<Seq<char>>, body: Seq<u8>)
    ensures
        content_type is None ==> verdict(content_type, body) == Err::<(Seq<u8>, Seq<char>), Seq<char>>(
            "That address answered with nothing."@,
        ),
        content_type matches Some(ct) && !occurs_at(ct, "image/"@, 0) && ct.len() > 0 ==> verdict(
            content_type,
            body,
        ) == Err::<(Seq<u8>, Seq<char>), Seq<char>>(
            "That address answered with "@ + content_type.unwrap() + ", which is not an image."@,
        ),
        content_type == Some(Seq::<char>::empty()) ==> verdict(content_type, body) == Err::<
            (Seq<u8>, Seq<char>),
            Seq<char>,
        >("That address answered with no content type, which is not an image."@),
        content_type matches Some(ct) && occurs_at(ct, "image/"@, 0) && body.len() == 0 ==> verdict(
            content_type,
            body,
        ) == Err::<(Seq<u8>, Seq<char>), Seq<char>>("That address answered with an empty image."@),
{
    if content_type == Some(Seq::<char>::empty()) {
        reveal_strlit("image/");
        reveal_strlit("That address answered with ");
        reveal_strlit("no content type");
        reveal_strlit(", which is not an image.");
        reveal_strlit("That address answered with no content type, which is not an image.");
        assert("That address answered with "@ + "no content type"@ + ", which is not an image."@
            =~= "That address answered with no content type, which is not an image."@);
    }
}

/// What is requested for a protocol-relative source is the `https` address it means.
pub proof fn law_a_protocol_relative_source_is_requested_over_https(rest: Seq<char>)
    ensures
        request_for("//"@ + rest) == "https://"@ + rest,
{
    let url = "//"@ + rest;
    assert(url.subrange(0, 2) =~= "//"@) by {
        reveal_strlit("//");
    }
    reveal_strlit("//");
    assert(url.skip(2) =~= rest);
}

} // verus!
