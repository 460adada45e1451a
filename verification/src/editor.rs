//! Where the source editor's positions come from.
//!
//! The parser counts the source in bytes and the editor's buffer counts it in
//! characters, so a position handed from one to the other is converted rather than
//! assumed: a document with one accented letter above a checkbox would otherwise have
//! its boxes rewritten one place to the left.
use vstd::prelude::*;
use vstd::utf8::{decode_utf8, encode_utf8, is_char_boundary};
use crate::text::chars_of;

verus! {

/// Which character of `text` the byte offset `at` is, when `at` stands at the start of
/// a character that is there to be replaced.
pub open spec fn marker_at(text: Seq<char>, at: int) -> Option<nat> {
    let bytes = encode_utf8(text);
    if is_char_boundary(bytes, at) && decode_utf8(bytes.take(at)).len() < text.len() {
        Some(decode_utf8(bytes.take(at)).len())
    } else {
        None
    }
}

/// The character offset in the buffer of the task marker the parser found at byte
/// offset `at` of `text`, or `None` when `at` is not the start of a character of it —
/// in which case the marker is left alone.
pub fn marker_position(text: &str, at: usize) -> (character: Option<usize>)
    ensures
        match character {
            Some(c) => marker_at(text@, at as int) == Some(c as nat),
            None => marker_at(text@, at as int) is None,
        },
{
    if !text.is_char_boundary(at) {
        return None;
    }
    let (before, _) = text.split_at(at);
    proof {
        vstd::utf8::encode_utf8_valid_utf8(text@);
        vstd::utf8::encode_utf8_decode_utf8(before@);
        assert(encode_utf8(text@).take(at as int) =~= encode_utf8(text@).subrange(0, at as int));
    }
    let counted = chars_of(before).len();
    let all = chars_of(text).len();
    if counted < all {
        Some(counted)
    } else {
        None
    }
}

/// The line the buffer is asked to put the caret on, counting from zero, for source
/// line `line` counted from one, in a buffer of `line_count` lines: never past the
/// last line.
pub open spec fn caret_row(line: u32, line_count: i32) -> i32 {
    let wanted = (if line == 0 {
        0
    } else {
        line - 1
    }) as i32;
    let last = if line_count == i32::MIN {
        i32::MIN
    } else {
        (line_count - 1) as i32
    };
    if wanted < last {
        wanted
    } else {
        last
    }
}

/// The buffer line the caret goes to for source line `line`.
pub fn caret_target(line: u32, line_count: i32) -> (row: i32)
    ensures
        row == caret_row(line, line_count),
{
    let wanted = (if line == 0 {
        0
    } else {
        line - 1
    }) as i32;
    let last = if line_count == i32::MIN {
        i32::MIN
    } else {
        line_count - 1
    };
    if wanted < last {
        wanted
    } else {
        last
    }
}

/// The source line, counted from one, of buffer line `row`, counted from zero.
pub fn source_line(row: i32) -> (line: u32)
    ensures
        line == (if row == i32::MAX {
            i32::MAX
        } else {
            (row + 1) as i32
        }) as u32,
{
    let next = if row == i32::MAX {
        i32::MAX
    } else {
        row + 1
    };
    next as u32
}

} // verus!
