//! Where the reader left off in each document they have read, and the one small file
//! that outlives the window that learned it.
//!
//! One line per document, `<last seen, in seconds since the epoch> <line> <path>`,
//! most recently seen first, as bytes: a path is bytes, and a document whose name is
//! not UTF-8 is still a document. A line that does not parse is skipped rather than
//! mourned.
//!
//! Every write tidies the whole store ([`tidied`]): documents not opened for
//! [`FORGOTTEN_AFTER`] are dropped, documents the filesystem says are gone are
//! dropped, and what is left is capped at [`REMEMBERED`]. The clock and the filesystem
//! are asked by the caller and handed in as values; everything decided from them is
//! here.
use vstd::prelude::*;
use std::time::{Duration, SystemTime, SystemTimeError};
use crate::decimal::{
    all_digits, decimal, decimal_of, digits_value, is_digit, lemma_decimal_round_trip,
    parse_unsigned, unsigned_value,
};
use crate::links::components;
use crate::text::{
    same_chars,
    cut_once, extend_bytes, first_from, first_occurrence, lemma_first_from, occurs_at,
    position_of_byte, slice_bytes,
};

verus! {

/// How many documents the reader's places are kept for.
pub const REMEMBERED: usize = 500;

/// How long a document goes unopened before the place in it is forgotten, in seconds:
/// a hundred and eighty days.
pub const FORGOTTEN_AFTER: u64 = 180 * 24 * 60 * 60;

/// The byte that ends a line of the store.
pub const NEWLINE: u8 = 10;

/// The byte that separates the fields of a line.
pub const SPACE: u8 = 32;

/// One document, and where the reader last was in it.
#[derive(Clone, Debug, PartialEq, Eq)]
pub struct Place {
    /// The path the reader keeps the document at, as bytes.
    pub document: Vec<u8>,
    /// The source line of the block that was at the top of the page.
    pub line: u32,
    /// When the reader was last there, in seconds since the epoch.
    pub seen: u64,
}

/// A place as the store's rules speak of it: the document, the line, and when.
pub type Spot = (Seq<u8>, u32, u64);

impl View for Place {
    type V = Spot;

    open spec fn view(&self) -> Spot {
        (self.document@, self.line, self.seen)
    }
}

/// The places `v` holds, as the rules speak of them.
pub open spec fn spots(v: Seq<Place>) -> Seq<Spot> {
    v.map_values(|p: Place| p@)
}

/// How long ago `seen` was at `now`, reading a clock set behind it as no time at all.
pub open spec fn age(seen: u64, now: u64) -> int {
    if now >= seen {
        now - seen
    } else {
        0
    }
}

/// The byte that separates the components of a path.
pub const SLASH: u8 = 47;

/// The byte a path's "this directory" component is spelled with.
pub const DOT: u8 = 46;

/// A path's bytes read one character each: no two bytes read as the same character, so
/// two paths are the same characters exactly when they are the same bytes.
pub open spec fn byte_chars(p: Seq<u8>) -> Seq<char> {
    p.map_values(|b: u8| b as char)
}

/// The components of the path `p`, as `Path::components` yields them: whether it
/// starts at the root, whether it starts with a `.` component of its own, and the
/// components after that, with empty and `.` ones left out.
pub open spec fn path_components(p: Seq<u8>) -> (bool, bool, Seq<Seq<char>>) {
    (
        p.len() > 0 && p[0] == SLASH,
        p.len() > 0 && p[0] == DOT && (p.len() == 1 || p[1] == SLASH),
        components(byte_chars(p)).1,
    )
}

/// Two paths name the same document when they have the same components, as two
/// `PathBuf`s compare: `/notes//a.md`, `/notes/./a.md` and `/notes/a.md` are one.
pub open spec fn same_document(a: Seq<u8>, b: Seq<u8>) -> bool {
    let (a_root, a_here, a_names) = path_components(a);
    let (b_root, b_here, b_names) = path_components(b);
    &&& a_root == b_root
    &&& a_here == b_here
    &&& a_names == b_names
}

/// Whether a place the store already holds is written back beside the newest one.
pub open spec fn stays(spot: Spot, here: Seq<u8>, now: u64, gone: bool) -> bool {
    &&& !same_document(spot.0, here)
    &&& age(spot.2, now) <= FORGOTTEN_AFTER
    &&& !gone
}

/// The places of `kept` that stay, in the order they were kept in.
pub open spec fn survivors(kept: Seq<Spot>, gone: Seq<bool>, here: Seq<u8>, now: u64) -> Seq<Spot>
    decreases kept.len(),
{
    if kept.len() == 0 {
        seq![]
    } else {
        let rest = survivors(kept.drop_last(), gone.drop_last(), here, now);
        if stays(kept.last(), here, now, gone.last()) {
            rest.push(kept.last())
        } else {
            rest
        }
    }
}

/// The store as it is written back once the reader's place is `newest`: that place at
/// the front, then every kept place that stays, capped at [`REMEMBERED`].
pub open spec fn tidy_store(kept: Seq<Spot>, gone: Seq<bool>, newest: Spot, now: u64) -> Seq<Spot> {
    let all = seq![newest] + survivors(kept, gone, newest.0, now);
    if all.len() > REMEMBERED {
        all.take(REMEMBERED as int)
    } else {
        all
    }
}

fn chars_of_bytes(p: &[u8]) -> (c: Vec<char>)
    ensures
        c@ == byte_chars(p@),
{
    let mut c: Vec<char> = Vec::new();
    let mut i: usize = 0;
    while i < p.len()
        invariant
            i <= p.len(),
            c@ =~= byte_chars(p@.take(i as int)),
        decreases p.len() - i,
    {
        c.push(p[i] as char);
        i = i + 1;
        assert(byte_chars(p@.take(i as int)) =~= byte_chars(p@.take(i - 1)).push(p@[i - 1] as char));
    }
    assert(p@.take(p.len() as int) =~= p@);
    c
}

fn components_of(p: &[u8]) -> (parts: (bool, bool, Vec<Vec<char>>))
    ensures
        parts.0 == path_components(p@).0,
        parts.1 == path_components(p@).1,
        parts.2@.len() == path_components(p@).2.len(),
        forall|i: int| 0 <= i < parts.2@.len() ==> (#[trigger] parts.2@[i])@ == path_components(p@).2[i],
{
    let root = p.len() > 0 && p[0] == SLASH;
    let dot = p.len() > 0 && p[0] == DOT && (p.len() == 1 || p[1] == SLASH);
    let chars = chars_of_bytes(p);
    let (_, names) = crate::links::names_of(&chars);
    (root, dot, names)
}

/// Whether `a` and `b` name the same document, component by component.
fn is_same_document(a: &[u8], b: &[u8]) -> (same: bool)
    ensures
        same == same_document(a@, b@),
{
    let (ra, da, na) = components_of(a);
    let (rb, db, nb) = components_of(b);
    if ra != rb || da != db || na.len() != nb.len() {
        return false;
    }
    let ghost ca = path_components(a@).2;
    let ghost cb = path_components(b@).2;
    let mut i: usize = 0;
    while i < na.len()
        invariant
            ca == path_components(a@).2,
            cb == path_components(b@).2,
            na@.len() == nb@.len(),
            na@.len() == ca.len(),
            nb@.len() == cb.len(),
            i <= na.len(),
            forall|j: int| 0 <= j < na@.len() ==> (#[trigger] na@[j])@ == ca[j],
            forall|j: int| 0 <= j < nb@.len() ==> (#[trigger] nb@[j])@ == cb[j],
            forall|j: int| 0 <= j < i ==> ca[j] == cb[j],
        decreases na.len() - i,
    {
        if !same_chars(&na[i], &nb[i]) {
            assert(na@[i as int]@ == ca[i as int]);
            assert(nb@[i as int]@ == cb[i as int]);
            assert(ca[i as int] != cb[i as int]);
            assert(ca != cb);
            return false;
        }
        i = i + 1;
    }
    assert(ca =~= cb);
    true
}

fn copy_place(p: &Place) -> (q: Place)
    ensures
        q@ == p@,
{
    Place { document: slice_bytes(&p.document, 0, p.document.len()), line: p.line, seen: p.seen }
}

/// The store as it is written back once the reader's place is `newest`.
///
/// `gone[i]` is whether the filesystem says `kept[i]` is no longer there — as opposed
/// to saying nothing at all, which is not the same answer and must not cost the reader
/// an entry. The newest place is never asked about: it is the document a window has
/// open.
pub fn tidied(kept: Vec<Place>, newest: Place, now: u64, gone: &[bool]) -> (tidy: Vec<Place>)
    requires
        gone.len() == kept.len(),
    ensures
        spots(tidy@) == tidy_store(spots(kept@), gone@, newest@, now),
{
    let here = slice_bytes(&newest.document, 0, newest.document.len());
    let ghost newest_spot = newest@;
    let mut tidy: Vec<Place> = Vec::new();
    tidy.push(newest);
    let mut i: usize = 0;
    while i < kept.len()
        invariant
            gone.len() == kept.len(),
            i <= kept.len(),
            here@ == newest_spot.0,
            spots(tidy@) == seq![newest_spot] + survivors(
                spots(kept@).take(i as int),
                gone@.take(i as int),
                newest_spot.0,
                now,
            ),
        decreases kept.len() - i,
    {
        let place = &kept[i];
        let recent = if now >= place.seen {
            now - place.seen <= FORGOTTEN_AFTER
        } else {
            true
        };
        let ghost before = spots(tidy@);
        assert(spots(kept@).take(i + 1).drop_last() =~= spots(kept@).take(i as int));
        assert(gone@.take(i + 1).drop_last() =~= gone@.take(i as int));
        assert(spots(kept@).take(i + 1).last() == kept@[i as int]@);
        if !is_same_document(&place.document, &here) && recent && !gone[i] {
            tidy.push(copy_place(place));
            assert(spots(tidy@) =~= before.push(kept@[i as int]@));
        } else {
            assert(spots(tidy@) =~= before);
        }
        i = i + 1;
    }
    assert(spots(kept@).take(kept.len() as int) =~= spots(kept@));
    assert(gone@.take(kept.len() as int) =~= gone@);
    if tidy.len() > REMEMBERED {
        tidy.truncate(REMEMBERED);
        assert(spots(tidy@) =~= (seq![newest_spot] + survivors(spots(kept@), gone@, newest_spot.0, now)).take(
            REMEMBERED as int,
        ));
    }
    tidy
}

proof fn lemma_survivors_shape(kept: Seq<Spot>, gone: Seq<bool>, here: Seq<u8>, now: u64)
    requires
        gone.len() == kept.len(),
    ensures
        survivors(kept, gone, here, now).len() <= kept.len(),
        forall|i: int| 0 <= i < survivors(kept, gone, here, now).len() ==> {
            let s = #[trigger] survivors(kept, gone, here, now)[i];
            &&& !same_document(s.0, here)
            &&& age(s.2, now) <= FORGOTTEN_AFTER
            &&& kept.contains(s)
        },
    decreases kept.len(),
{
    if kept.len() > 0 {
        lemma_survivors_shape(kept.drop_last(), gone.drop_last(), here, now);
        let rest = survivors(kept.drop_last(), gone.drop_last(), here, now);
        assert forall|i: int| 0 <= i < survivors(kept, gone, here, now).len() implies {
            let s = #[trigger] survivors(kept, gone, here, now)[i];
            &&& !same_document(s.0, here)
            &&& age(s.2, now) <= FORGOTTEN_AFTER
            &&& kept.contains(s)
        } by {
            let s = survivors(kept, gone, here, now)[i];
            if i < rest.len() {
                assert(s == rest[i]);
                let k = choose|k: int| 0 <= k < kept.drop_last().len() && kept.drop_last()[k] == s;
                assert(kept[k] == s);
            } else {
                assert(s == kept.last());
                assert(kept[kept.len() - 1] == s);
            }
        }
    }
}

/// What tidying the store promises whatever the filesystem says: the reader's newest
/// place comes first and its document nowhere else, nothing older than the ceiling
/// survives, nothing is made up, and the store never grows past its cap.
pub proof fn law_tidying_keeps_the_store_bounded(kept: Seq<Spot>, gone: Seq<bool>, newest: Spot, now: u64)
    requires
        gone.len() == kept.len(),
    ensures
        ({
            let t = tidy_store(kept, gone, newest, now);
            &&& 1 <= t.len() <= REMEMBERED
            &&& t[0] == newest
            &&& forall|i: int| 1 <= i < t.len() ==> !same_document((#[trigger] t[i]).0, newest.0)
            &&& forall|i: int| 1 <= i < t.len() ==> age((#[trigger] t[i]).2, now) <= FORGOTTEN_AFTER
            &&& forall|i: int| 1 <= i < t.len() ==> kept.contains(#[trigger] t[i])
        }),
{
    lemma_survivors_shape(kept, gone, newest.0, now);
    let all = seq![newest] + survivors(kept, gone, newest.0, now);
    let t = tidy_store(kept, gone, newest, now);
    assert forall|i: int| 1 <= i < t.len() implies {
        &&& !same_document((#[trigger] t[i]).0, newest.0)
        &&& age(t[i].2, now) <= FORGOTTEN_AFTER
        &&& kept.contains(t[i])
    } by {
        assert(t[i] == all[i]);
        assert(all[i] == survivors(kept, gone, newest.0, now)[i - 1]);
    }
}

/// Where the reader is supersedes where they were: a place the store held for the same
/// document is replaced, never kept beside the new one.
pub proof fn law_the_newest_place_replaces_the_old_one(
    kept: Seq<Spot>,
    gone: Seq<bool>,
    newest: Spot,
    now: u64,
    i: int,
)
    requires
        gone.len() == kept.len(),
        0 <= i < tidy_store(kept, gone, newest, now).len(),
        same_document(tidy_store(kept, gone, newest, now)[i].0, newest.0),
    ensures
        i == 0,
        tidy_store(kept, gone, newest, now)[i] == newest,
{
    law_tidying_keeps_the_store_bounded(kept, gone, newest, now);
}

/// What the filesystem says of each of `kept`, when it answers by the document's name
/// alone.
pub open spec fn asked(kept: Seq<Spot>, gone_of: spec_fn(Seq<u8>) -> bool) -> Seq<bool> {
    kept.map_values(|s: Spot| gone_of(s.0))
}

proof fn lemma_survivors_are_not_gone(kept: Seq<Spot>, gone_of: spec_fn(Seq<u8>) -> bool, here: Seq<u8>, now: u64)
    ensures
        forall|i: int|
            0 <= i < survivors(kept, asked(kept, gone_of), here, now).len() ==> !gone_of(
                (#[trigger] survivors(kept, asked(kept, gone_of), here, now)[i]).0,
            ),
    decreases kept.len(),
{
    if kept.len() > 0 {
        assert(asked(kept, gone_of).drop_last() =~= asked(kept.drop_last(), gone_of));
        lemma_survivors_are_not_gone(kept.drop_last(), gone_of, here, now);
        let gone = asked(kept, gone_of);
        let rest = survivors(kept.drop_last(), gone.drop_last(), here, now);
        let all = survivors(kept, gone, here, now);
        assert(gone.last() == gone_of(kept.last().0));
        assert forall|i: int| 0 <= i < all.len() implies !gone_of((#[trigger] all[i]).0) by {
            if i < rest.len() {
                assert(all[i] == rest[i]);
            }
        }
    }
}

proof fn lemma_survivors_after_the_first(s: Seq<Spot>, g: Seq<bool>, here: Seq<u8>, now: u64)
    requires
        s.len() >= 1,
        g.len() == s.len(),
        !stays(s[0], here, now, g[0]),
        forall|i: int| 1 <= i < s.len() ==> stays(#[trigger] s[i], here, now, g[i]),
    ensures
        survivors(s, g, here, now) == s.drop_first(),
    decreases s.len(),
{
    if s.len() == 1 {
        assert(survivors(s.drop_last(), g.drop_last(), here, now) =~= Seq::<Spot>::empty());
        assert(s.drop_first() =~= Seq::<Spot>::empty());
    } else {
        assert forall|i: int| 1 <= i < s.drop_last().len() implies stays(
            #[trigger] s.drop_last()[i],
            here,
            now,
            g.drop_last()[i],
        ) by {
            assert(stays(s[i], here, now, g[i]));
        }
        lemma_survivors_after_the_first(s.drop_last(), g.drop_last(), here, now);
        assert(stays(s[s.len() - 1], here, now, g[s.len() - 1]));
        assert(s.drop_last().drop_first().push(s.last()) =~= s.drop_first());
    }
}

/// Tidying is done once: tidying again, at the same moment, for the same newest place,
/// with the filesystem answering the same way of each name, writes the same store back.
pub proof fn law_tidying_twice_changes_nothing(
    kept: Seq<Spot>,
    gone_of: spec_fn(Seq<u8>) -> bool,
    newest: Spot,
    now: u64,
)
    ensures
        ({
            let t = tidy_store(kept, asked(kept, gone_of), newest, now);
            tidy_store(t, asked(t, gone_of), newest, now) == t
        }),
{
    let gone = asked(kept, gone_of);
    let t = tidy_store(kept, gone, newest, now);
    let again = asked(t, gone_of);
    law_tidying_keeps_the_store_bounded(kept, gone, newest, now);
    lemma_survivors_are_not_gone(kept, gone_of, newest.0, now);
    let all = seq![newest] + survivors(kept, gone, newest.0, now);
    assert forall|i: int| 1 <= i < t.len() implies stays(#[trigger] t[i], newest.0, now, again[i]) by {
        assert(t[i] == all[i]);
        assert(all[i] == survivors(kept, gone, newest.0, now)[i - 1]);
    }
    lemma_survivors_after_the_first(t, again, newest.0, now);
    assert(seq![newest] + t.drop_first() =~= t);
}

// ---------------------------------------------------------------------------------
// The file's lines.

/// `bytes` read as characters, one per byte, when every byte is ASCII.
pub open spec fn ascii_text(bytes: Seq<u8>) -> Option<Seq<char>> {
    if forall|i: int| 0 <= i < bytes.len() ==> #[trigger] bytes[i] < 128 {
        Some(bytes.map_values(|b: u8| b as char))
    } else {
        None
    }
}

/// The number the field `bytes` holds, as `str::from_utf8` then `parse` read it: only an
/// ASCII field can be a number, so a field that is not one is no number either way.
pub open spec fn field_value(bytes: Seq<u8>, max: int) -> Option<int> {
    match ascii_text(bytes) {
        Some(text) => unsigned_value(text, max),
        None => None,
    }
}

/// One line of the store, or none for a line that is not a place.
pub open spec fn place_of_line(line: Seq<u8>) -> Option<Spot> {
    match cut_once(line, seq![SPACE]) {
        None => None,
        Some((seen, rest)) => match cut_once(rest, seq![SPACE]) {
            None => None,
            Some((at, document)) => if document.len() == 0 {
                None
            } else {
                match (field_value(seen, u64::MAX as int), field_value(at, u32::MAX as int)) {
                    (Some(s), Some(l)) => Some((document, l as u32, s as u64)),
                    _ => None,
                }
            },
        },
    }
}

/// The places the lines of `stored` hold, in order: the bytes split at every newline,
/// and the lines that are not places skipped.
pub open spec fn store_places(stored: Seq<u8>) -> Seq<Spot>
    decreases stored.len(),
{
    let found = match place_of_line(match first_occurrence(stored, seq![NEWLINE]) {
        Some(i) => stored.take(i),
        None => stored,
    }) {
        Some(p) => seq![p],
        None => seq![],
    };
    match first_occurrence(stored, seq![NEWLINE]) {
        Some(i) => if 0 <= i < stored.len() {
            found + store_places(stored.skip(i + 1))
        } else {
            found
        },
        None => found,
    }
}

/// The characters `c` spell as bytes, every one of them ASCII.
pub open spec fn ascii_bytes(chars: Seq<char>) -> Seq<u8> {
    chars.map_values(|c: char| (c as u32) as u8)
}

/// One place as a line of the store, without its newline.
pub open spec fn line_of(spot: Spot) -> Seq<u8> {
    ascii_bytes(decimal_of(spot.2 as nat)) + seq![SPACE] + ascii_bytes(decimal_of(spot.1 as nat))
        + seq![SPACE] + spot.0
}

/// The store that holds `spots`, a line each, in order.
pub open spec fn store_bytes(spots: Seq<Spot>) -> Seq<u8>
    decreases spots.len(),
{
    if spots.len() == 0 {
        seq![]
    } else {
        line_of(spots[0]) + seq![NEWLINE] + store_bytes(spots.drop_first())
    }
}

/// A place this file can spell: one with a name, and no newline in it.
pub open spec fn spellable(spot: Spot) -> bool {
    &&& spot.0.len() > 0
    &&& forall|i: int| 0 <= i < spot.0.len() ==> #[trigger] spot.0[i] != NEWLINE
}

fn ascii_field(bytes: &[u8]) -> (text: Option<Vec<char>>)
    ensures
        match text {
            Some(t) => ascii_text(bytes@) == Some(t@),
            None => ascii_text(bytes@) is None,
        },
{
    let mut text: Vec<char> = Vec::new();
    let mut i: usize = 0;
    while i < bytes.len()
        invariant
            i <= bytes.len(),
            forall|j: int| 0 <= j < i ==> #[trigger] bytes@[j] < 128,
            text@ =~= bytes@.take(i as int).map_values(|b: u8| b as char),
        decreases bytes.len() - i,
    {
        let b = bytes[i];
        if b >= 128 {
            return None;
        }
        text.push(b as char);
        i = i + 1;
        assert(bytes@.take(i as int).map_values(|b: u8| b as char) =~= bytes@.take(
            (i - 1) as int,
        ).map_values(|b: u8| b as char).push(b as char));
    }
    assert(bytes@.take(bytes.len() as int) =~= bytes@);
    Some(text)
}

fn field(bytes: &[u8], max: u64) -> (n: Option<u64>)
    ensures
        match n {
            Some(v) => field_value(bytes@, max as int) == Some(v as int),
            None => field_value(bytes@, max as int) is None,
        },
{
    match ascii_field(bytes) {
        Some(text) => parse_unsigned(&text, max),
        None => None,
    }
}

proof fn lemma_cut_at_single(s: Seq<u8>, b: u8, at: int)
    requires
        0 <= at < s.len(),
        s[at] == b,
        forall|j: int| 0 <= j < at ==> s[j] != b,
    ensures
        first_occurrence(s, seq![b]) == Some(at),
        cut_once(s, seq![b]) == Some((s.take(at), s.skip(at + 1))),
{
    lemma_first_from(s, seq![b], 0);
    assert(occurs_at(s, seq![b], at)) by {
        assert(s.subrange(at, at + 1) =~= seq![b]);
    }
    match first_from(s, seq![b], 0) {
        Some(k) => {
            if k < at {
                assert(s.subrange(k, k + 1)[0] == s[k]);
            }
        },
        None => {},
    }
}

proof fn lemma_no_single(s: Seq<u8>, b: u8)
    requires
        forall|j: int| 0 <= j < s.len() ==> s[j] != b,
    ensures
        first_occurrence(s, seq![b]) is None,
        cut_once(s, seq![b]) is None,
{
    lemma_first_from(s, seq![b], 0);
    match first_from(s, seq![b], 0) {
        Some(k) => {
            assert(s.subrange(k, k + 1)[0] == s[k]);
        },
        None => {},
    }
}

/// `line` up to its first space, and everything after it — the path being last is what
/// lets a document's own name hold spaces without any escaping at all.
pub fn split(line: &[u8]) -> (parts: Option<(Vec<u8>, Vec<u8>)>)
    ensures
        match parts {
            Some((before, after)) => cut_once(line@, seq![SPACE]) == Some((before@, after@)),
            None => cut_once(line@, seq![SPACE]) is None,
        },
{
    match position_of_byte(line, SPACE) {
        Some(at) => {
            proof {
                lemma_cut_at_single(line@, SPACE, at as int);
            }
            let before = slice_bytes(line, 0, at);
            let after = slice_bytes(line, at + 1, line.len());
            assert(before@ =~= line@.take(at as int));
            assert(after@ =~= line@.skip(at + 1));
            Some((before, after))
        },
        None => {
            proof {
                lemma_no_single(line@, SPACE);
            }
            None
        },
    }
}

/// One line of the store, or `None` for one that is not a place.
pub fn parsed(line: &[u8]) -> (place: Option<Place>)
    ensures
        match place {
            Some(p) => place_of_line(line@) == Some(p@),
            None => place_of_line(line@) is None,
        },
{
    let (seen, rest) = match split(line) {
        Some(parts) => parts,
        None => return None,
    };
    let (at, document) = match split(&rest) {
        Some(parts) => parts,
        None => return None,
    };
    if document.len() == 0 {
        return None;
    }
    let seen = match field(&seen, u64::MAX) {
        Some(v) => v,
        None => return None,
    };
    let line = match field(&at, 0xffff_ffff) {
        Some(v) => v as u32,
        None => return None,
    };
    Some(Place { document, line, seen })
}

/// The places in a store's bytes, or none at all for bytes that hold none.
pub fn places_in(stored: &[u8]) -> (places: Vec<Place>)
    ensures
        spots(places@) == store_places(stored@),
{
    let mut places: Vec<Place> = Vec::new();
    let mut start: usize = 0;
    assert(stored@.skip(0) =~= stored@);
    assert(spots(places@) + store_places(stored@) =~= store_places(stored@));
    loop
        invariant
            start <= stored.len(),
            spots(places@) + store_places(stored@.skip(start as int)) == store_places(stored@),
        decreases stored.len() - start,
    {
        let rest = slice_bytes(stored, start, stored.len());
        assert(rest@ =~= stored@.skip(start as int));
        let ghost before = spots(places@);
        match position_of_byte(&rest, NEWLINE) {
            Some(at) => {
                proof {
                    lemma_cut_at_single(rest@, NEWLINE, at as int);
                }
                let line = slice_bytes(&rest, 0, at);
                assert(line@ =~= rest@.take(at as int));
                assert(rest@.skip(at + 1) =~= stored@.skip(start + at + 1));
                match parsed(&line) {
                    Some(p) => {
                        places.push(p);
                        assert(spots(places@) =~= before.push(p@));
                    },
                    None => {
                        assert(spots(places@) =~= before);
                    },
                }
                start = start + at + 1;
            },
            None => {
                proof {
                    lemma_no_single(rest@, NEWLINE);
                }
                match parsed(&rest) {
                    Some(p) => {
                        places.push(p);
                        assert(spots(places@) =~= before.push(p@));
                    },
                    None => {
                        assert(spots(places@) =~= before);
                    },
                }
                return places;
            },
        }
    }
}

fn ascii_of(chars: &[char], out: &mut Vec<u8>)
    requires
        forall|i: int| 0 <= i < chars.len() ==> is_digit(#[trigger] chars@[i]),
    ensures
        final(out)@ == old(out)@ + ascii_bytes(chars@),
{
    let ghost start = out@;
    let mut i: usize = 0;
    while i < chars.len()
        invariant
            i <= chars.len(),
            forall|k: int| 0 <= k < chars.len() ==> is_digit(#[trigger] chars@[k]),
            out@ == start + ascii_bytes(chars@.take(i as int)),
        decreases chars.len() - i,
    {
        assert(is_digit(chars@[i as int]));
        out.push((chars[i] as u32) as u8);
        i = i + 1;
        assert(ascii_bytes(chars@.take(i as int)) =~= ascii_bytes(chars@.take(i - 1)).push(
            (chars@[i - 1] as u32) as u8,
        ));
    }
    assert(chars@.take(chars.len() as int) =~= chars@);
}

/// The store's bytes for `places`, a line each, most recent first as they are given.
pub fn store_of(places: &[Place]) -> (stored: Vec<u8>)
    ensures
        stored@ == store_bytes(spots(places@)),
{
    let mut stored: Vec<u8> = Vec::new();
    let mut i: usize = places.len();
    let mut tail: Vec<u8> = Vec::new();
    // Built back to front, so each line is put before the lines after it.
    while i > 0
        invariant
            i <= places.len(),
            tail@ == store_bytes(spots(places@).skip(i as int)),
        decreases i,
    {
        i = i - 1;
        let place = &places[i];
        let mut line: Vec<u8> = Vec::new();
        let seen = decimal(place.seen);
        proof {
            lemma_decimal_round_trip(place.seen as nat);
        }
        ascii_of(&seen, &mut line);
        line.push(SPACE);
        let at = decimal(place.line as u64);
        proof {
            lemma_decimal_round_trip(place.line as nat);
        }
        ascii_of(&at, &mut line);
        line.push(SPACE);
        extend_bytes(&mut line, &place.document);
        line.push(NEWLINE);
        extend_bytes(&mut line, &tail);
        proof {
            let s = spots(places@).skip(i as int);
            assert(s[0] == places@[i as int]@);
            assert(s.drop_first() =~= spots(places@).skip(i + 1));
            assert(line@ =~= line_of(places@[i as int]@) + seq![NEWLINE] + store_bytes(
                spots(places@).skip(i + 1),
            ));
        }
        tail = line;
    }
    assert(spots(places@).skip(0) =~= spots(places@));
    extend_bytes(&mut stored, &tail);
    assert(stored@ =~= tail@);
    stored
}

proof fn lemma_ascii_digits(n: nat)
    ensures
        ascii_text(ascii_bytes(decimal_of(n))) == Some(decimal_of(n)),
        forall|i: int| 0 <= i < ascii_bytes(decimal_of(n)).len() ==> #[trigger] ascii_bytes(decimal_of(n))[i] != SPACE
            && ascii_bytes(decimal_of(n))[i] != NEWLINE,
{
    lemma_decimal_round_trip(n);
    let d = decimal_of(n);
    let b = ascii_bytes(d);
    assert forall|i: int| 0 <= i < b.len() implies #[trigger] b[i] < 128 && b[i] != SPACE && b[i] != NEWLINE by {
        assert(is_digit(d[i]));
    }
    assert(b.map_values(|x: u8| x as char) =~= d) by {
        assert forall|i: int| 0 <= i < d.len() implies b.map_values(|x: u8| x as char)[i] == d[i] by {
            assert(is_digit(d[i]));
        }
    }
}

proof fn lemma_line_round_trip(spot: Spot)
    requires
        spellable(spot),
    ensures
        place_of_line(line_of(spot)) == Some(spot),
        forall|i: int| 0 <= i < line_of(spot).len() ==> #[trigger] line_of(spot)[i] != NEWLINE,
{
    let seen = ascii_bytes(decimal_of(spot.2 as nat));
    let at = ascii_bytes(decimal_of(spot.1 as nat));
    lemma_ascii_digits(spot.2 as nat);
    lemma_ascii_digits(spot.1 as nat);
    lemma_decimal_round_trip(spot.2 as nat);
    lemma_decimal_round_trip(spot.1 as nat);
    let line = line_of(spot);
    let rest = at + seq![SPACE] + spot.0;
    assert(line =~= seen + seq![SPACE] + rest);
    assert forall|j: int| 0 <= j < seen.len() implies line[j] != SPACE by {
        assert(line[j] == seen[j]);
    }
    lemma_cut_at_single(line, SPACE, seen.len() as int);
    assert(line.take(seen.len() as int) =~= seen);
    assert(line.skip((seen.len() + 1) as int) =~= rest);
    assert forall|j: int| 0 <= j < at.len() implies rest[j] != SPACE by {
        assert(rest[j] == at[j]);
    }
    lemma_cut_at_single(rest, SPACE, at.len() as int);
    assert(rest.take(at.len() as int) =~= at);
    assert(rest.skip((at.len() + 1) as int) =~= spot.0);
    crate::decimal::lemma_unsigned_value_of_decimal(spot.2 as nat, u64::MAX as int);
    crate::decimal::lemma_unsigned_value_of_decimal(spot.1 as nat, u32::MAX as int);
    assert forall|i: int| 0 <= i < line.len() implies #[trigger] line[i] != NEWLINE by {
        if i < seen.len() {
            assert(line[i] == seen[i]);
        } else if i == seen.len() {
        } else if i < seen.len() + 1 + at.len() {
            assert(line[i] == at[i - seen.len() - 1]);
        } else if i == seen.len() + 1 + at.len() {
        } else {
            assert(line[i] == spot.0[i - seen.len() - 2 - at.len()]);
        }
    }
}

/// A place written down is the place read back, name and all — including a document
/// whose name holds the space the file separates its fields with. Any place the file
/// can spell: one with a name, and no newline in it.
pub proof fn law_a_place_survives_the_trip_through_the_file(spots: Seq<Spot>)
    requires
        forall|i: int| 0 <= i < spots.len() ==> spellable(#[trigger] spots[i]),
    ensures
        store_places(store_bytes(spots)) == spots,
    decreases spots.len(),
{
    if spots.len() == 0 {
        let empty = store_bytes(spots);
        assert(empty =~= Seq::<u8>::empty());
        lemma_no_single(empty, NEWLINE);
        assert(place_of_line(empty) is None) by {
            lemma_no_single(empty, SPACE);
        }
        assert(store_places(empty) =~= Seq::<Spot>::empty());
    } else {
        assert(spellable(spots[0]));
        lemma_line_round_trip(spots[0]);
        law_a_place_survives_the_trip_through_the_file(spots.drop_first());
        let line = line_of(spots[0]);
        let rest = store_bytes(spots.drop_first());
        let all = store_bytes(spots);
        assert(all =~= line + seq![NEWLINE] + rest);
        assert forall|j: int| 0 <= j < line.len() implies all[j] != NEWLINE by {
            assert(all[j] == line[j]);
        }
        lemma_cut_at_single(all, NEWLINE, line.len() as int);
        assert(all.take(line.len() as int) =~= line);
        assert(all.skip((line.len() + 1) as int) =~= rest);
        assert(store_places(all) =~= seq![spots[0]] + store_places(rest));
        assert(seq![spots[0]] + spots.drop_first() =~= spots);
    }
}

/// `lines` joined back together with a newline between each two: what splitting bytes
/// at their newlines takes apart.
pub open spec fn joined(lines: Seq<Seq<u8>>) -> Seq<u8>
    decreases lines.len(),
{
    if lines.len() == 0 {
        seq![]
    } else if lines.len() == 1 {
        lines[0]
    } else {
        lines[0] + seq![NEWLINE] + joined(lines.drop_first())
    }
}

/// The places `lines` hold, in order, every line that is not a place skipped.
pub open spec fn places_of_lines(lines: Seq<Seq<u8>>) -> Seq<Spot>
    decreases lines.len(),
{
    if lines.len() == 0 {
        seq![]
    } else {
        let found = match place_of_line(lines[0]) {
            Some(p) => seq![p],
            None => seq![],
        };
        found + places_of_lines(lines.drop_first())
    }
}

/// Reading the store is splitting its bytes at every newline and keeping the lines that
/// are places, in order. The lines of `stored` are the pieces that hold no newline and
/// that, joined back with a newline between each two, are `stored`.
pub proof fn law_the_store_is_read_line_by_line(stored: Seq<u8>, lines: Seq<Seq<u8>>)
    requires
        lines.len() >= 1,
        forall|i: int, j: int|
            0 <= i < lines.len() && 0 <= j < lines[i].len() ==> #[trigger] lines[i][j] != NEWLINE,
        joined(lines) == stored,
    ensures
        store_places(stored) == places_of_lines(lines),
    decreases lines.len(),
{
    let first = lines[0];
    assert forall|j: int| 0 <= j < first.len() implies first[j] != NEWLINE by {
        assert(lines[0][j] != NEWLINE);
    }
    if lines.len() == 1 {
        lemma_no_single(stored, NEWLINE);
        assert(places_of_lines(lines.drop_first()) =~= Seq::<Spot>::empty());
        assert(store_places(stored) =~= places_of_lines(lines));
    } else {
        let others = lines.drop_first();
        let rest = joined(others);
        assert(stored =~= first + seq![NEWLINE] + rest);
        assert forall|j: int| 0 <= j < first.len() implies stored[j] != NEWLINE by {
            assert(stored[j] == first[j]);
        }
        lemma_cut_at_single(stored, NEWLINE, first.len() as int);
        assert(stored.take(first.len() as int) =~= first);
        assert(stored.skip(first.len() + 1int) =~= rest);
        assert forall|i: int, j: int|
            0 <= i < others.len() && 0 <= j < others[i].len() implies #[trigger] others[i][j]
            != NEWLINE by {
            assert(others[i] == lines[i + 1]);
        }
        law_the_store_is_read_line_by_line(rest, others);
        assert(store_places(stored) =~= places_of_lines(lines));
    }
}

/// Where the reader left off in `document`: the line of the first place the store holds
/// for it.
pub open spec fn place_in(spots: Seq<Spot>, document: Seq<u8>) -> Option<u32>
    decreases spots.len(),
{
    if spots.len() == 0 {
        None
    } else if same_document(spots[0].0, document) {
        Some(spots[0].1)
    } else {
        place_in(spots.drop_first(), document)
    }
}

/// What the reader is put back at is what they were last at: once the store is tidied
/// with the reader at `line` of `document`, written, and read back, the place found for
/// `document` is `line`. For any store the file can spell.
pub proof fn law_the_place_written_is_the_place_found(
    kept: Seq<Spot>,
    gone: Seq<bool>,
    document: Seq<u8>,
    line: u32,
    now: u64,
)
    requires
        gone.len() == kept.len(),
        forall|i: int| 0 <= i < kept.len() ==> spellable(#[trigger] kept[i]),
        spellable((document, line, now)),
    ensures
        place_in(store_places(store_bytes(tidy_store(kept, gone, (document, line, now), now))), document)
            == Some(line),
{
    let newest = (document, line, now);
    let t = tidy_store(kept, gone, newest, now);
    law_tidying_keeps_the_store_bounded(kept, gone, newest, now);
    assert forall|i: int| 0 <= i < t.len() implies spellable(#[trigger] t[i]) by {
        if i > 0 {
            let k = choose|k: int| 0 <= k < kept.len() && kept[k] == t[i];
            assert(spellable(kept[k]));
        }
    }
    law_a_place_survives_the_trip_through_the_file(t);
}

/// The source line to put back at the top of the page when `document` is opened, or
/// `None` when there is nothing to put back: the reader has asked axiomd not to
/// remember where they were (`remembering` is off), or has never read it.
pub fn left_off_at(remembering: bool, places: &[Place], document: &[u8]) -> (line: Option<u32>)
    ensures
        line == (if remembering {
            place_in(spots(places@), document@)
        } else {
            None
        }),
{
    if !remembering {
        return None;
    }
    let mut i: usize = 0;
    assert(spots(places@).skip(0) =~= spots(places@));
    while i < places.len()
        invariant
            remembering,
            i <= places.len(),
            place_in(spots(places@), document@) == place_in(spots(places@).skip(i as int), document@),
        decreases places.len() - i,
    {
        assert(spots(places@).skip(i as int)[0] == places@[i as int]@);
        assert(spots(places@).skip(i as int).drop_first() =~= spots(places@).skip(i + 1));
        if is_same_document(&places[i].document, document) {
            return Some(places[i].line);
        }
        i = i + 1;
    }
    assert(spots(places@).skip(i as int) =~= Seq::<Spot>::empty());
    None
}

/// The name the store keeps a document under, or `None` for one it cannot keep: a path
/// holding a newline is not one this file can spell.
pub fn named(kept: &[u8]) -> (name: Option<Vec<u8>>)
    ensures
        match name {
            Some(n) => n@ == kept@ && forall|i: int| 0 <= i < kept.len() ==> kept@[i] != NEWLINE,
            None => exists|i: int| 0 <= i < kept.len() && kept@[i] == NEWLINE,
        },
{
    match position_of_byte(kept, NEWLINE) {
        Some(_) => None,
        None => Some(slice_bytes(kept, 0, kept.len())),
    }
}

/// The name to write the reader's place in `kept` down under, or `None` when nothing is
/// written: the reader has asked axiomd not to remember where they were, or the path is
/// one the store cannot spell.
pub fn remembered_name(remembering: bool, kept: &[u8]) -> (name: Option<Vec<u8>>)
    ensures
        !remembering ==> name is None,
        remembering ==> match name {
            Some(n) => n@ == kept@ && forall|i: int| 0 <= i < kept.len() ==> kept@[i] != NEWLINE,
            None => exists|i: int| 0 <= i < kept.len() && kept@[i] == NEWLINE,
        },
{
    if remembering {
        named(kept)
    } else {
        None
    }
}

// ---------------------------------------------------------------------------------
// The clock.

#[verifier::external_type_specification]
#[verifier::external_body]
pub struct ExSystemTime(SystemTime);

#[verifier::external_type_specification]
#[verifier::external_body]
pub struct ExSystemTimeError(SystemTimeError);

/// `SystemTime::now`: the wall clock, which nothing here can say anything about.
#[verifier::external_body]
fn clock() -> SystemTime {
    SystemTime::now()
}

/// `SystemTime::duration_since` the epoch: how long after it `at` is, or an error for a
/// clock set behind it.
#[verifier::external_body]
fn since_the_epoch(at: &SystemTime) -> Result<Duration, SystemTimeError> {
    at.duration_since(std::time::UNIX_EPOCH)
}

/// `Duration::as_secs`: the whole seconds of `d`.
#[verifier::external_body]
fn whole_seconds(d: &Duration) -> u64 {
    d.as_secs()
}

/// The seconds since the epoch the clock answered with, or `None` for a clock set behind
/// the epoch, as the store counts them: such a clock reads as the epoch, which costs one
/// entry its age and nothing else.
pub fn seconds_since(since: Option<u64>) -> (s: u64)
    ensures
        s == match since {
            Some(x) => x,
            None => 0,
        },
{
    match since {
        Some(x) => x,
        None => 0,
    }
}

/// Now, in seconds since the epoch, as [`seconds_since`] counts the clock's answer.
pub fn now() -> u64 {
    let since = match since_the_epoch(&clock()) {
        Ok(d) => Some(whole_seconds(&d)),
        Err(_) => None,
    };
    seconds_since(since)
}

} // verus!
