//! The framing of the test-control channel: how a command and its answer travel.
//!
//! Both directions use one frame, `<word> <byte-count>\n<payload>`: a length rather than
//! a delimiter, so a payload — a script, a path, a title — never has to be escaped and
//! can hold anything, newlines included. A command's word is its verb; an answer's is
//! `ok` or `err`, so a test sees a failed command as a failure rather than as an
//! odd-looking value.
use vstd::prelude::*;
use vstd::utf8::{decode_utf8, encode_utf8, valid_utf8};
use crate::decimal::{decimal, decimal_of, parse_usize, unsigned_value};
use crate::text::{chars_of, cut_once, extend_chars, slice_bytes, split_once, string_of, trim_end, trimmed_end};

verus! {

/// What the first line of a frame says: its word and how many bytes of payload follow,
/// or `None` for a line that is not a frame's first line at all.
pub open spec fn header_of(line: Seq<u8>) -> Option<(Seq<char>, nat)> {
    if !valid_utf8(line) {
        None
    } else {
        match cut_once(trimmed_end(decode_utf8(line)), seq![' ']) {
            Some((word, count)) => match unsigned_value(count, usize::MAX as int) {
                Some(n) => Some((word, n as nat)),
                None => None,
            },
            None => None,
        }
    }
}

/// Reads the first line of a frame, without its line break: the word, and how many
/// bytes of payload follow it.
pub fn parse_header(line: &[u8]) -> (header: Option<(String, usize)>)
    ensures
        match header {
            Some((word, n)) => header_of(line@) == Some((word@, n as nat)),
            None => header_of(line@) is None,
        },
{
    let text = match core::str::from_utf8(line) {
        Ok(text) => text,
        Err(_) => return None,
    };
    let trimmed = trim_end(&chars_of(text));
    let space = vec![' '];
    assert(space@ =~= seq![' ']);
    match split_once(&trimmed, &space) {
        Some((word, count)) => match parse_usize(&count) {
            Some(n) => Some((string_of(&word), n)),
            None => None,
        },
        None => None,
    }
}

/// The text of a frame: its word, a space, the payload's length in bytes, a line
/// break, and the payload.
pub open spec fn frame_text(word: Seq<char>, payload: Seq<char>) -> Seq<char> {
    word + seq![' '] + decimal_of(encode_utf8(payload).len()) + seq!['\n'] + payload
}

/// The first line of a frame, without its line break.
pub open spec fn header_text(word: Seq<char>, count: nat) -> Seq<char> {
    word + seq![' '] + decimal_of(count)
}

/// The bytes of the frame carrying `payload` under `word`.
pub fn frame(word: &str, payload: &str) -> (bytes: Vec<u8>)
    ensures
        bytes@ == encode_utf8(frame_text(word@, payload@)),
{
    let mut text = chars_of(word);
    text.push(' ');
    let n = payload.as_bytes().len();
    let digits = decimal(n as u64);
    assert(digits@ == decimal_of(encode_utf8(payload@).len()));
    extend_chars(&mut text, &digits);
    text.push('\n');
    extend_chars(&mut text, &chars_of(payload));
    assert(text@ =~= frame_text(word@, payload@));
    let s = string_of(&text);
    let b = s.as_str().as_bytes();
    slice_bytes(b, 0, b.len())
}

/// The frame an answer travels in: `ok` and what the command produced, or `err` and
/// why it failed.
pub fn reply(answer: &Result<String, String>) -> (bytes: Vec<u8>)
    ensures
        bytes@ == encode_utf8(
            match answer {
                Ok(body) => frame_text("ok"@, body@),
                Err(body) => frame_text("err"@, body@),
            },
        ),
{
    match answer {
        Ok(body) => frame("ok", body.as_str()),
        Err(body) => frame("err", body.as_str()),
    }
}

proof fn lemma_decimal_has_no_space(n: nat)
    ensures
        decimal_of(n).len() > 0,
        forall|i: int| 0 <= i < decimal_of(n).len() ==> crate::decimal::is_digit(#[trigger] decimal_of(n)[i]),
{
    crate::decimal::lemma_decimal_round_trip(n);
}

/// A frame's first line reads back as what was framed: the word it was written under,
/// and the length it announced — for any word with no space in it, so that a test
/// always gets the whole of an answer and nothing of the next.
pub proof fn law_a_frame_reads_back_as_framed(word: Seq<char>, count: nat)
    requires
        forall|i: int| 0 <= i < word.len() ==> word[i] != ' ',
        count <= usize::MAX,
    ensures
        header_of(encode_utf8(header_text(word, count))) == Some((word, count)),
{
    let line = header_text(word, count);
    vstd::utf8::encode_utf8_valid_utf8(line);
    vstd::utf8::encode_utf8_decode_utf8(line);
    lemma_decimal_has_no_space(count);
    let digits = decimal_of(count);
    assert(line.last() == digits.last());
    assert(!crate::text::is_space(line.last()));
    assert(trimmed_end(line) == line);
    crate::text::lemma_first_from(line, seq![' '], 0);
    assert(crate::text::occurs_at(line, seq![' '], word.len() as int)) by {
        assert(line.subrange(word.len() as int, word.len() + 1int) =~= seq![' ']);
    }
    assert forall|k: int| 0 <= k < word.len() implies !crate::text::occurs_at(line, seq![' '], k) by {
        if crate::text::occurs_at(line, seq![' '], k) {
            assert(line.subrange(k, k + 1)[0] == line[k]);
            assert(line[k] == word[k]);
        }
    }
    assert(crate::text::first_occurrence(line, seq![' ']) == Some(word.len() as int));
    assert(line.take(word.len() as int) =~= word);
    assert(line.skip(word.len() + 1int) =~= digits);
    crate::decimal::lemma_unsigned_value_of_decimal(count, usize::MAX as int);
}

/// Which window a command is addressed to, when `selected` is the window a test picked
/// (if any) and `count` windows are open: the one picked while it is still open, and
/// otherwise the newest — or, with none to address, what the test is told.
pub open spec fn addressed_window(selected: Option<usize>, count: usize) -> Result<usize, Seq<char>> {
    match selected {
        Some(index) => if index < count {
            Ok(index)
        } else {
            Err("window "@ + decimal_of(index as nat) + " has closed"@)
        },
        None => if count > 0 {
            Ok((count - 1) as usize)
        } else {
            Err("no window is open"@)
        },
    }
}

/// The window a command is addressed to, as [`addressed_window`] picks it.
pub fn addressed(selected: Option<usize>, count: usize) -> (window: Result<usize, String>)
    ensures
        match window {
            Ok(index) => addressed_window(selected, count) == Ok::<usize, Seq<char>>(index),
            Err(told) => addressed_window(selected, count) == Err::<usize, Seq<char>>(told@),
        },
{
    match selected {
        Some(index) => {
            if index < count {
                Ok(index)
            } else {
                let mut told = chars_of("window ");
                extend_chars(&mut told, &decimal(index as u64));
                extend_chars(&mut told, &chars_of(" has closed"));
                Err(string_of(&told))
            }
        },
        None => {
            if count > 0 {
                Ok(count - 1)
            } else {
                Err("no window is open".to_owned())
            }
        },
    }
}

/// What `select` makes of the window index `index` while `count` windows are open: the
/// index itself when that window is open, and what the test is told when it is not.
pub open spec fn selection(index: usize, count: usize) -> Result<usize, Seq<char>> {
    if index < count {
        Ok(index)
    } else {
        Err("no window "@ + decimal_of(index as nat) + ": "@ + decimal_of(count as nat) + " are open"@)
    }
}

/// The check `select` makes of the window index it is given.
pub fn selected(index: usize, count: usize) -> (window: Result<usize, String>)
    ensures
        match window {
            Ok(i) => selection(index, count) == Ok::<usize, Seq<char>>(i),
            Err(told) => selection(index, count) == Err::<usize, Seq<char>>(told@),
        },
{
    if index < count {
        return Ok(index);
    }
    let mut told = chars_of("no window ");
    extend_chars(&mut told, &decimal(index as u64));
    extend_chars(&mut told, &chars_of(": "));
    extend_chars(&mut told, &decimal(count as u64));
    extend_chars(&mut told, &chars_of(" are open"));
    Err(string_of(&told))
}

} // verus!
