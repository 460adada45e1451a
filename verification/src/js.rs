//! Text handed to the page's own JavaScript as data, never as syntax.
//!
//! A document is arbitrary text — quotes, backslashes, newlines, and the two separators
//! a JavaScript parser treats as line breaks — and all of it has to survive the trip
//! into the page as a string literal. [`as_js_string`] writes that literal, and
//! [`law_a_document_reaches_the_page_as_text`] proves that reading the literal back
//! gives exactly the text, with nothing left over to be read as code.
use vstd::prelude::*;
use crate::text::chars_of;

verus! {

/// The lower-case hexadecimal digit for `d`.
pub open spec fn hex_digit(d: int) -> char {
    if d < 10 {
        (48 + d) as char
    } else {
        (87 + d) as char
    }
}

/// What a hexadecimal digit is worth, in either case.
pub open spec fn hex_worth(c: char) -> Option<int> {
    if '0' <= c && c <= '9' {
        Some(c as int - 48)
    } else if 'a' <= c && c <= 'f' {
        Some(c as int - 87)
    } else if 'A' <= c && c <= 'F' {
        Some(c as int - 55)
    } else {
        None
    }
}

/// How one character of a document is written inside a string literal.
pub open spec fn js_escape(c: char) -> Seq<char> {
    if c == '"' {
        seq!['\\', '"']
    } else if c == '\\' {
        seq!['\\', '\\']
    } else if c == '\n' {
        seq!['\\', 'n']
    } else if c == '\r' {
        seq!['\\', 'r']
    } else if c == '\u{2028}' {
        seq!['\\', 'u', '2', '0', '2', '8']
    } else if c == '\u{2029}' {
        seq!['\\', 'u', '2', '0', '2', '9']
    } else if (c as int) < 32 {
        seq!['\\', 'u', '0', '0', hex_digit(c as int / 16), hex_digit(c as int % 16)]
    } else {
        seq![c]
    }
}

/// The inside of the literal that carries `t`.
pub open spec fn js_body(t: Seq<char>) -> Seq<char>
    decreases t.len(),
{
    if t.len() == 0 {
        seq![]
    } else {
        js_escape(t[0]) + js_body(t.skip(1))
    }
}

/// The string literal that carries `t`.
pub open spec fn js_literal(t: Seq<char>) -> Seq<char> {
    seq!['"'] + js_body(t) + seq!['"']
}

/// A character that may not stand bare inside a string literal: it would end the
/// string, or the line.
pub open spec fn is_syntax(c: char) -> bool {
    c == '"' || c == '\\' || c == '\n' || c == '\r' || c == '\u{2028}' || c == '\u{2029}' || (c as int) < 32
}

/// What the inside of a double-quoted literal reads as, for the escapes this module
/// writes: `\"`, `\\`, `\n`, `\r` and `\u` with four hexadecimal digits. `None` for
/// anything a parser would read as something other than the string going on — a bare
/// quote, a bare line break or control character, or an escape left unfinished.
pub open spec fn unquoted(s: Seq<char>) -> Option<Seq<char>>
    decreases s.len(),
{
    if s.len() == 0 {
        Some(seq![])
    } else if s[0] == '\\' {
        if s.len() < 2 {
            None
        } else if s[1] == 'u' {
            if s.len() < 6 {
                None
            } else {
                match (hex_worth(s[2]), hex_worth(s[3]), hex_worth(s[4]), hex_worth(s[5])) {
                    (Some(a), Some(b), Some(c), Some(d)) => {
                        let v = a * 4096 + b * 256 + c * 16 + d;
                        if 0xD800 <= v && v <= 0xDFFF {
                            None
                        } else {
                            match unquoted(s.skip(6)) {
                                Some(r) => Some(seq![v as char] + r),
                                None => None,
                            }
                        }
                    },
                    _ => None,
                }
            }
        } else {
            let e = if s[1] == '"' {
                Some('"')
            } else if s[1] == '\\' {
                Some('\\')
            } else if s[1] == 'n' {
                Some('\n')
            } else if s[1] == 'r' {
                Some('\r')
            } else {
                None
            };
            match e {
                Some(c) => match unquoted(s.skip(2)) {
                    Some(r) => Some(seq![c] + r),
                    None => None,
                },
                None => None,
            }
        }
    } else if is_syntax(s[0]) {
        None
    } else {
        match unquoted(s.skip(1)) {
            Some(r) => Some(seq![s[0]] + r),
            None => None,
        }
    }
}

proof fn lemma_hex_round_trip(d: int)
    requires
        0 <= d < 16,
    ensures
        hex_worth(hex_digit(d)) == Some(d),
{
}

proof fn lemma_one_escape_reads_back(c: char, rest: Seq<char>)
    ensures
        unquoted(js_escape(c) + rest) == match unquoted(rest) {
            Some(r) => Some(seq![c] + r),
            None => None::<Seq<char>>,
        },
{
    let s = js_escape(c) + rest;
    if c == '"' || c == '\\' || c == '\n' || c == '\r' {
        assert(s.skip(2) =~= rest);
    } else if c == '\u{2028}' || c == '\u{2029}' {
        assert(s.skip(6) =~= rest);
        assert((0x2028int) as char == '\u{2028}');
        assert((0x2029int) as char == '\u{2029}');
    } else if (c as int) < 32 {
        let n = c as int;
        lemma_hex_round_trip(n / 16);
        lemma_hex_round_trip(n % 16);
        assert(s[4] == hex_digit(n / 16));
        assert(s[5] == hex_digit(n % 16));
        assert(0 * 4096 + 0 * 256 + (n / 16) * 16 + n % 16 == n);
        assert(s.skip(6) =~= rest);
        assert((n as char) == c);
    } else {
        assert(s.skip(1) =~= rest);
        assert(!is_syntax(c));
    }
}

proof fn lemma_body_concat(a: Seq<char>, b: Seq<char>)
    ensures
        js_body(a + b) == js_body(a) + js_body(b),
    decreases a.len(),
{
    if a.len() == 0 {
        assert(a + b =~= b);
        assert(js_body(a) + js_body(b) =~= js_body(b));
    } else {
        lemma_body_concat(a.skip(1), b);
        assert((a + b).skip(1) =~= a.skip(1) + b);
        assert((a + b)[0] == a[0]);
        assert(js_escape(a[0]) + (js_body(a.skip(1)) + js_body(b)) =~= (js_escape(a[0]) + js_body(
            a.skip(1),
        )) + js_body(b));
    }
}

proof fn lemma_body_of_one(c: char)
    ensures
        js_body(seq![c]) == js_escape(c),
{
    let one = seq![c];
    assert(one.skip(1) =~= Seq::<char>::empty());
    assert(js_body(one.skip(1)) == Seq::<char>::empty());
    assert(one[0] == c);
    assert(js_body(one) == js_escape(one[0]) + js_body(one.skip(1)));
    assert(js_escape(c) + Seq::<char>::empty() =~= js_escape(c));
}

/// A document reaches the page as text and never as syntax: the inside of the literal
/// written for any text reads back as exactly that text, so no character of it — a
/// quote, a backslash, a line break of either kind — ends the string early or is read
/// as anything but data.
pub proof fn law_a_document_reaches_the_page_as_text(t: Seq<char>)
    ensures
        unquoted(js_body(t)) == Some(t),
    decreases t.len(),
{
    if t.len() == 0 {
    } else {
        law_a_document_reaches_the_page_as_text(t.skip(1));
        lemma_one_escape_reads_back(t[0], js_body(t.skip(1)));
        assert(seq![t[0]] + t.skip(1) =~= t);
    }
}

/// The hexadecimal digit for `d`.
fn hex_char(d: u32) -> (c: char)
    requires
        d < 16,
    ensures
        c == hex_digit(d as int),
{
    if d < 10 {
        ((48 + d) as u8) as char
    } else {
        ((87 + d) as u8) as char
    }
}

/// Appends the way `c` is written inside a string literal.
fn push_escaped(out: &mut Vec<char>, c: char)
    ensures
        final(out)@ == old(out)@ + js_escape(c),
{
    let ghost before = out@;
    if c == '"' {
        out.push('\\');
        out.push('"');
    } else if c == '\\' {
        out.push('\\');
        out.push('\\');
    } else if c == '\n' {
        out.push('\\');
        out.push('n');
    } else if c == '\r' {
        out.push('\\');
        out.push('r');
    } else if c == '\u{2028}' {
        out.push('\\');
        out.push('u');
        out.push('2');
        out.push('0');
        out.push('2');
        out.push('8');
    } else if c == '\u{2029}' {
        out.push('\\');
        out.push('u');
        out.push('2');
        out.push('0');
        out.push('2');
        out.push('9');
    } else if (c as u32) < 32 {
        let n = c as u32;
        out.push('\\');
        out.push('u');
        out.push('0');
        out.push('0');
        out.push(hex_char(n / 16));
        out.push(hex_char(n % 16));
    } else {
        out.push(c);
    }
    assert(out@ =~= before + js_escape(c));
}

/// `text` as a JavaScript string literal.
pub fn as_js_string(text: &str) -> (quoted: String)
    ensures
        quoted@ == js_literal(text@),
{
    let chars = chars_of(text);
    let mut out: Vec<char> = Vec::new();
    out.push('"');
    let mut i: usize = 0;
    while i < chars.len()
        invariant
            i <= chars.len(),
            out@ == seq!['"'] + js_body(chars@.take(i as int)),
        decreases chars.len() - i,
    {
        proof {
            lemma_body_concat(chars@.take(i as int), seq![chars@[i as int]]);
            lemma_body_of_one(chars@[i as int]);
            assert(chars@.take(i as int) + seq![chars@[i as int]] =~= chars@.take(i + 1));
        }
        push_escaped(&mut out, chars[i]);
        i = i + 1;
        proof {
            assert(out@ =~= seq!['"'] + js_body(chars@.take(i as int)));
        }
    }
    out.push('"');
    assert(chars@.take(i as int) =~= chars@);
    assert(out@ =~= js_literal(text@));
    crate::text::string_of(&out)
}

/// One `key:value` pair of an object literal.
pub open spec fn js_entry(pair: (Seq<char>, Seq<char>)) -> Seq<char> {
    js_literal(pair.0) + seq![':'] + js_literal(pair.1)
}

/// The pairs of an object literal, separated by commas.
pub open spec fn js_entries(pairs: Seq<(Seq<char>, Seq<char>)>) -> Seq<char>
    decreases pairs.len(),
{
    if pairs.len() == 0 {
        seq![]
    } else if pairs.len() == 1 {
        js_entry(pairs[0])
    } else {
        js_entries(pairs.drop_last()) + seq![','] + js_entry(pairs.last())
    }
}

/// The object literal carrying `pairs`.
pub open spec fn js_object(pairs: Seq<(Seq<char>, Seq<char>)>) -> Seq<char> {
    seq!['{'] + js_entries(pairs) + seq!['}']
}

/// The pairs `v` holds, as the rules speak of them.
pub open spec fn text_pairs(v: Seq<(String, String)>) -> Seq<(Seq<char>, Seq<char>)> {
    v.map_values(|p: (String, String)| (p.0@, p.1@))
}

/// `pairs` as a JavaScript object literal, keys and values alike carried as data.
///
/// Both halves come from a document — an image's source is whatever the author wrote —
/// so neither may arrive at the parser as syntax.
pub fn as_js_object(pairs: &[(String, String)]) -> (object: String)
    ensures
        object@ == js_object(text_pairs(pairs@)),
{
    let ghost all = text_pairs(pairs@);
    let mut out: Vec<char> = Vec::new();
    out.push('{');
    let mut i: usize = 0;
    while i < pairs.len()
        invariant
            i <= pairs.len(),
            all == text_pairs(pairs@),
            out@ == seq!['{'] + js_entries(all.take(i as int)),
        decreases pairs.len() - i,
    {
        let ghost before = out@;
        if i > 0 {
            out.push(',');
        }
        let key = as_js_string(pairs[i].0.as_str());
        let value = as_js_string(pairs[i].1.as_str());
        crate::text::extend_chars(&mut out, &chars_of(key.as_str()));
        out.push(':');
        crate::text::extend_chars(&mut out, &chars_of(value.as_str()));
        proof {
            let next = all.take(i + 1);
            assert(next.drop_last() =~= all.take(i as int));
            assert(next.last() == all[i as int]);
            assert(all[i as int] == (pairs@[i as int].0@, pairs@[i as int].1@));
            if i == 0 {
                assert(all.take(0) =~= Seq::<(Seq<char>, Seq<char>)>::empty());
                assert(out@ =~= seq!['{'] + js_entries(next));
            } else {
                assert(out@ =~= seq!['{'] + js_entries(next));
            }
        }
        i = i + 1;
    }
    out.push('}');
    assert(all.take(i as int) =~= all);
    assert(out@ =~= js_object(all));
    crate::text::string_of(&out)
}

} // verus!
