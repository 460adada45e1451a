//! The document's headings as the sidebar arranges them: which section each one hangs
//! under, what each is called in the sense that survives a rebuild, which one the reader
//! is in, and how wide the panel may be.
use vstd::prelude::*;
use crate::decimal::{decimal, decimal_of};
use crate::text::{chars_of, extend_chars, string_of};

verus! {

/// The narrowest the reader may drag the outline, in pixels: narrower and a heading is
/// unreadable.
pub const NARROWEST: i32 = 180;

/// The widest the reader may drag the outline, in pixels: wider and it is a pane rather
/// than an index.
pub const WIDEST: i32 = 480;

/// The least room the document keeps beside the outline, in pixels.
pub const ROOM_FOR_THE_DOCUMENT: i32 = 480;

/// One heading of a document: its level, the source line it starts on, and its words.
pub struct Heading {
    pub level: u8,
    pub line: u32,
    pub text: String,
}

/// The nearest of the first `before` headings written at a shallower level than
/// `level`: the last one, counting back from `before`.
pub open spec fn nearest_shallower(levels: Seq<u8>, level: u8, before: int) -> Option<int>
    decreases before,
{
    if before <= 0 {
        None
    } else if levels[before - 1] < level {
        Some(before - 1)
    } else {
        nearest_shallower(levels, level, before - 1)
    }
}

/// The section heading `i` hangs under: the nearest heading above it written at a
/// shallower level, whatever the distance between them, or `None` for a top-level one.
pub open spec fn parent_of(levels: Seq<u8>, i: int) -> Option<int> {
    nearest_shallower(levels, levels[i], i)
}

proof fn lemma_nearest_shallower(levels: Seq<u8>, level: u8, before: int)
    requires
        before <= levels.len(),
    ensures
        match nearest_shallower(levels, level, before) {
            Some(t) => 0 <= t < before && levels[t] < level && forall|j: int|
                t < j < before ==> levels[j] >= level,
            None => forall|j: int| 0 <= j < before ==> levels[j] >= level,
        },
    decreases before,
{
    if before > 0 && levels[before - 1] >= level {
        lemma_nearest_shallower(levels, level, before - 1);
    }
}

proof fn lemma_nearest_is_unique(levels: Seq<u8>, level: u8, before: int, t: Option<int>)
    requires
        before <= levels.len(),
        match t {
            Some(t) => 0 <= t < before && levels[t] < level && forall|j: int|
                t < j < before ==> levels[j] >= level,
            None => forall|j: int| 0 <= j < before ==> levels[j] >= level,
        },
    ensures
        nearest_shallower(levels, level, before) == t,
{
    lemma_nearest_shallower(levels, level, before);
    match (nearest_shallower(levels, level, before), t) {
        (Some(a), Some(b)) => {
            if a < b {
                assert(levels[b] >= level);
            } else if b < a {
                assert(levels[a] >= level);
            }
        },
        (Some(a), None) => {
            assert(levels[a] >= level);
        },
        (None, Some(b)) => {
            assert(levels[b] >= level);
        },
        (None, None) => {},
    }
}

/// Heading `j` is hidden behind a later heading on the holder stack written no deeper.
spec fn covered(levels: Seq<u8>, stack: Seq<usize>, j: int) -> bool {
    exists|p: int| 0 <= p < stack.len() && stack[p] > j && #[trigger] levels[stack[p] as int] <= levels[j]
}

/// The section each heading hangs under, by position: a heading goes under the nearest
/// heading above it written at a shallower level, and the rest are at the top. A
/// document that skips a level — `#` then `###` — nests the way it reads.
pub fn parents(levels: &[u8]) -> (under: Vec<Option<usize>>)
    ensures
        under@.len() == levels@.len(),
        forall|i: int| 0 <= i < levels@.len() ==> match #[trigger] under@[i] {
            Some(p) => parent_of(levels@, i) == Some(p as int),
            None => parent_of(levels@, i) is None,
        },
{
    let mut under: Vec<Option<usize>> = Vec::new();
    let mut holders: Vec<usize> = Vec::new();
    let mut i: usize = 0;
    while i < levels.len()
        invariant
            i <= levels.len(),
            under@.len() == i,
            forall|k: int| 0 <= k < i ==> match #[trigger] under@[k] {
                Some(p) => parent_of(levels@, k) == Some(p as int),
                None => parent_of(levels@, k) is None,
            },
            forall|p: int| 0 <= p < holders@.len() ==> #[trigger] holders@[p] < i,
            forall|p: int, q: int| 0 <= p < q < holders@.len() ==> holders@[p] < holders@[q],
            forall|j: int| 0 <= j < i ==> (exists|p: int| 0 <= p < holders@.len() && holders@[p] == j)
                || covered(levels@, holders@, j),
        decreases levels.len() - i,
    {
        let level = levels[i];
        let ghost full = holders@;
        while holders.len() > 0 && levels[holders[holders.len() - 1]] >= level
            invariant
                i < levels.len(),
                level == levels@[i as int],
                holders@.len() <= full.len(),
                holders@ == full.take(holders@.len() as int),
                forall|p: int| 0 <= p < full.len() ==> #[trigger] full[p] < i,
                forall|p: int| holders@.len() <= p < full.len() ==> levels@[#[trigger] full[p] as int] >= level,
            decreases holders.len(),
        {
            holders.pop();
        }
        let ghost kept = holders@;
        let parent = if holders.len() > 0 {
            Some(holders[holders.len() - 1])
        } else {
            None
        };
        proof {
            let wanted = match parent {
                Some(t) => Some(t as int),
                None => None,
            };
            assert forall|j: int| (match parent {
                Some(t) => t < j < i,
                None => 0 <= j < i,
            }) implies levels@[j] >= level by {
                if exists|p: int| 0 <= p < full.len() && full[p] == j {
                    let p = choose|p: int| 0 <= p < full.len() && full[p] == j;
                    if p < kept.len() {
                        assert(kept[p] == j);
                        if kept.len() > 0 {
                            assert(p <= kept.len() - 1);
                            if p < kept.len() - 1 {
                                assert(full[p] < full[kept.len() - 1]);
                            }
                        }
                    }
                } else {
                    assert(covered(levels@, full, j));
                    let p = choose|p: int| 0 <= p < full.len() && full[p] > j && #[trigger] levels@[full[p] as int] <= levels@[j];
                    if p < kept.len() {
                        match parent {
                            Some(t) => {
                                assert(full[p] <= full[kept.len() - 1]) by {
                                    if p < kept.len() - 1 {
                                        assert(full[p] < full[kept.len() - 1]);
                                    }
                                }
                            },
                            None => {},
                        }
                    }
                }
            }
            lemma_nearest_is_unique(levels@, level, i as int, wanted);
        }
        under.push(parent);
        holders.push(i);
        proof {
            assert forall|j: int| 0 <= j < i + 1 implies (exists|p: int| 0 <= p < holders@.len() && holders@[p] == j)
                || covered(levels@, holders@, j) by {
                if j == i {
                    assert(holders@[holders@.len() - 1] == j);
                } else if exists|p: int| 0 <= p < full.len() && full[p] == j {
                    let p = choose|p: int| 0 <= p < full.len() && full[p] == j;
                    if p < kept.len() {
                        assert(holders@[p] == j);
                    } else {
                        assert(levels@[holders@[holders@.len() - 1] as int] <= levels@[j]);
                    }
                } else {
                    assert(covered(levels@, full, j));
                    let p = choose|p: int| 0 <= p < full.len() && full[p] > j && #[trigger] levels@[full[p] as int] <= levels@[j];
                    if p < kept.len() {
                        assert(holders@[p] == full[p]);
                    } else {
                        assert(levels@[holders@[holders@.len() - 1] as int] <= levels@[j]);
                    }
                }
            }
        }
        i = i + 1;
    }
    under
}

/// A heading always hangs under one written at a shallower level and above it, and
/// never under one further away than the nearest such heading: the tree reads the way
/// the document does.
pub proof fn law_a_section_hangs_under_the_nearest_shallower_heading(levels: Seq<u8>, i: int)
    requires
        0 <= i < levels.len(),
    ensures
        match parent_of(levels, i) {
            Some(p) => 0 <= p < i && levels[p] < levels[i] && forall|j: int|
                p < j < i ==> levels[j] >= levels[i],
            None => forall|j: int| 0 <= j < i ==> levels[j] >= levels[i],
        },
{
    lemma_nearest_shallower(levels, levels[i], i);
}

/// How many of the first `before` headings are called `text` at `level`.
pub open spec fn same_before(h: Seq<(u8, Seq<char>)>, level: u8, text: Seq<char>, before: int) -> nat
    decreases before,
{
    if before <= 0 {
        0
    } else {
        same_before(h, level, text, before - 1) + if h[before - 1].0 == level && h[before - 1].1
            == text {
            1nat
        } else {
            0nat
        }
    }
}

/// The headings as the rules speak of them: a level and words each.
pub open spec fn named(h: Seq<Heading>) -> Seq<(u8, Seq<char>)> {
    h.map_values(|x: Heading| (x.level, x.text@))
}

/// Which of the headings called the same thing at the same level heading `i` is.
pub open spec fn ordinal_of(h: Seq<(u8, Seq<char>)>, i: int) -> nat {
    same_before(h, h[i].0, h[i].1, i)
}

/// What a section is called, in the sense that survives the document being rebuilt
/// under it: its level, its words and its ordinal, with a unit separator between —
/// a character no heading holds, so two headings cannot spell one another's name.
pub open spec fn key_text(level: u8, text: Seq<char>, ordinal: nat) -> Seq<char> {
    decimal_of(level as nat) + seq!['\u{1f}'] + text + seq!['\u{1f}'] + decimal_of(ordinal)
}

/// For each heading, which of the headings called that it is.
pub fn ordinals(headings: &[Heading]) -> (ord: Vec<usize>)
    ensures
        ord@.len() == headings@.len(),
        forall|i: int| 0 <= i < headings@.len() ==> #[trigger] ord@[i] == ordinal_of(named(headings@), i),
{
    let ghost h = named(headings@);
    let mut ord: Vec<usize> = Vec::new();
    let mut i: usize = 0;
    while i < headings.len()
        invariant
            i <= headings.len(),
            h == named(headings@),
            ord@.len() == i,
            forall|k: int| 0 <= k < i ==> #[trigger] ord@[k] == ordinal_of(h, k),
        decreases headings.len() - i,
    {
        let mut n: usize = 0;
        let mut j: usize = 0;
        while j < i
            invariant
                j <= i < headings.len(),
                h == named(headings@),
                n == same_before(h, h[i as int].0, h[i as int].1, j as int),
                n <= j,
            decreases i - j,
        {
            if headings[j].level == headings[i].level && crate::text::same_text(
                headings[j].text.as_str(),
                headings[i].text.as_str(),
            ) {
                n = n + 1;
            }
            j = j + 1;
        }
        ord.push(n);
        i = i + 1;
    }
    ord
}

/// What a section is called, in the sense that survives a rebuild.
pub fn key_of(level: u8, text: &str, ordinal: usize) -> (key: String)
    ensures
        key@ == key_text(level, text@, ordinal as nat),
{
    let mut k = decimal(level as u64);
    k.push('\u{1f}');
    extend_chars(&mut k, &chars_of(text));
    k.push('\u{1f}');
    extend_chars(&mut k, &decimal(ordinal as u64));
    assert(k@ =~= key_text(level, text@, ordinal as nat));
    string_of(&k)
}

proof fn lemma_same_before_grows(h: Seq<(u8, Seq<char>)>, level: u8, text: Seq<char>, a: int, b: int)
    requires
        0 <= a <= b,
    ensures
        same_before(h, level, text, a) <= same_before(h, level, text, b),
    decreases b - a,
{
    if a < b {
        lemma_same_before_grows(h, level, text, a, b - 1);
    }
}

/// Two sections of a document called the same thing at the same level are still told
/// apart: the later one's ordinal is the higher, so no two headings share a name.
pub proof fn law_no_two_sections_share_a_name(h: Seq<(u8, Seq<char>)>, i: int, j: int)
    requires
        0 <= i < j < h.len(),
        h[i] == h[j],
    ensures
        ordinal_of(h, i) < ordinal_of(h, j),
{
    lemma_same_before_grows(h, h[i].0, h[i].1, i + 1, j);
}

/// How many of the rows, in order, start at or before `line`, stopping at the first
/// that does not.
pub open spec fn leading(lines: Seq<u32>, line: u32) -> nat
    decreases lines.len(),
{
    if lines.len() == 0 || lines[0] > line {
        0
    } else {
        1 + leading(lines.skip(1), line)
    }
}

/// The section a reader on `line` is in, of the rows on screen starting at `lines`: the
/// last row at or before it, and none at all above the first one.
pub open spec fn section_for(lines: Seq<u32>, line: u32) -> Option<int> {
    if leading(lines, line) == 0 {
        None
    } else {
        Some(leading(lines, line) - 1)
    }
}

proof fn lemma_leading(lines: Seq<u32>, line: u32)
    ensures
        leading(lines, line) <= lines.len(),
        forall|k: int| 0 <= k < leading(lines, line) ==> lines[k] <= line,
        leading(lines, line) < lines.len() ==> lines[leading(lines, line) as int] > line,
    decreases lines.len(),
{
    if lines.len() > 0 && lines[0] <= line {
        lemma_leading(lines.skip(1), line);
        assert forall|k: int| 0 <= k < leading(lines, line) implies lines[k] <= line by {
            if k > 0 {
                assert(lines[k] == lines.skip(1)[k - 1]);
            }
        }
        if leading(lines, line) < lines.len() {
            assert(lines[leading(lines, line) as int] == lines.skip(1)[leading(lines.skip(1), line) as int]);
        }
    }
}

/// Which row the reader on `line` is in: the last row, in document order, starting at
/// or before it — or `None` while they are above the first.
pub fn section_at(lines: &[u32], line: u32) -> (row: Option<usize>)
    ensures
        match row {
            Some(r) => section_for(lines@, line) == Some(r as int),
            None => section_for(lines@, line) is None,
        },
{
    proof {
        lemma_leading(lines@, line);
    }
    let mut k: usize = 0;
    assert(lines@.skip(0) =~= lines@);
    while k < lines.len() && lines[k] <= line
        invariant
            k <= lines.len(),
            leading(lines@, line) == k + leading(lines@.skip(k as int), line),
        decreases lines.len() - k,
    {
        proof {
            assert(lines@.skip(k as int)[0] == lines@[k as int]);
            assert(lines@.skip(k as int).skip(1) =~= lines@.skip(k + 1));
        }
        k = k + 1;
    }
    proof {
        if k < lines.len() {
            assert(lines@.skip(k as int)[0] == lines@[k as int]);
        } else {
            assert(lines@.skip(k as int).len() == 0);
        }
    }
    if k == 0 {
        None
    } else {
        Some(k - 1)
    }
}

/// In a document whose rows start in order, the reader is in the last section starting
/// at or before their line, and above every section when none does.
pub proof fn law_the_reader_is_in_the_last_section_begun(lines: Seq<u32>, line: u32)
    requires
        forall|a: int, b: int| 0 <= a < b < lines.len() ==> lines[a] <= lines[b],
    ensures
        match section_for(lines, line) {
            Some(r) => 0 <= r < lines.len() && lines[r] <= line && forall|k: int|
                r < k < lines.len() ==> lines[k] > line,
            None => forall|k: int| 0 <= k < lines.len() ==> lines[k] > line,
        },
{
    lemma_leading(lines, line);
    let n = leading(lines, line) as int;
    if n < lines.len() {
        assert forall|k: int| n <= k < lines.len() implies lines[k] > line by {
            assert(lines[n] <= lines[k]);
        }
    }
}

/// `width` held within the bounds the divider allows.
pub open spec fn held(width: int) -> int {
    if width < 180 {
        180
    } else if width > 480 {
        480
    } else {
        width
    }
}

/// `n` as an `i32` saturates it.
pub open spec fn saturated(n: int) -> int {
    if n > i32::MAX {
        i32::MAX as int
    } else if n < i32::MIN {
        i32::MIN as int
    } else {
        n
    }
}

/// The smaller of two numbers.
pub open spec fn smaller(a: int, b: int) -> int {
    if a < b {
        a
    } else {
        b
    }
}

/// Puts a chosen width within the bounds neither pane may cross.
pub fn within_bounds(width: i32) -> (w: i32)
    ensures
        w == held(width as int),
{
    if width < NARROWEST {
        NARROWEST
    } else if width > WIDEST {
        WIDEST
    } else {
        width
    }
}

/// The widest the divider goes in a split view `total` pixels wide: never so wide that
/// the document beside it is left less than a document's worth of room.
pub fn widest_here(total: i32) -> (w: i32)
    requires
        total >= i32::MIN + ROOM_FOR_THE_DOCUMENT,
    ensures
        w == held(total - 480),
{
    within_bounds(total - ROOM_FOR_THE_DOCUMENT)
}

/// Where a drag `across` pixels from where the divider was taken hold of at `grabbed`
/// leaves the outline, in a split view `total` pixels wide.
pub fn dragged(grabbed: i32, across: i32, total: i32) -> (w: i32)
    requires
        total >= i32::MIN + ROOM_FOR_THE_DOCUMENT,
    ensures
        w == held(smaller(saturated(grabbed + across), held(total - 480))),
        NARROWEST <= w <= WIDEST,
{
    let sum = grabbed as i64 + across as i64;
    let wanted: i32 = if sum > i32::MAX as i64 {
        i32::MAX
    } else if sum < i32::MIN as i64 {
        i32::MIN
    } else {
        sum as i32
    };
    let widest = widest_here(total);
    let w = if wanted < widest {
        wanted
    } else {
        widest
    };
    within_bounds(w)
}

/// Whatever the reader drags and however narrow the window, the outline is never
/// narrower than a heading can be read in nor wider than an index should be.
pub proof fn law_the_outline_keeps_its_bounds(width: int)
    ensures
        180 <= held(width) <= 480,
        180 <= width <= 480 ==> held(width) == width,
{
}

/// The sections the reader has folded away, by what they are called — so a fold
/// outlives every rebuild of the panel, including the ones a keystroke causes, and the
/// reader opening the section above it.
pub struct Folds {
    keys: Vec<String>,
}

impl Folds {
    /// The folded sections, as the rules speak of them.
    pub closed spec fn folded(&self) -> Seq<Seq<char>> {
        crate::text::texts(self.keys@)
    }

    /// A document nothing has been folded in.
    pub fn new() -> (f: Folds)
        ensures
            f.folded() == Seq::<Seq<char>>::empty(),
    {
        let f = Folds { keys: Vec::new() };
        assert(f.folded() =~= Seq::<Seq<char>>::empty());
        f
    }

    /// Whether the section called `key` is folded away.
    pub fn is_folded(&self, key: &str) -> (folded: bool)
        ensures
            folded == self.folded().contains(key@),
    {
        crate::text::holds(self.keys.as_slice(), key)
    }

    /// Records what the reader left the section called `key` as: open (`expanded`) or
    /// folded away.
    pub fn record(&mut self, key: &str, expanded: bool)
        ensures
            final(self).folded().contains(key@) == !expanded,
            forall|other: Seq<char>| other != key@ ==> (#[trigger] final(self).folded().contains(other)
                == old(self).folded().contains(other)),
    {
        let ghost before = self.folded();
        let mut kept = crate::text::dropping(self.keys.as_slice(), key);
        proof {
            crate::text::lemma_dropped(before, key@, key@);
            assert forall|other: Seq<char>| true implies (crate::text::texts(kept@).contains(other) <==> (
            other != key@ && before.contains(other))) by {
                crate::text::lemma_dropped(before, key@, other);
            }
        }
        if !expanded {
            let ghost dropped = crate::text::texts(kept@);
            kept.push(key.to_owned());
            proof {
                assert(crate::text::texts(kept@) =~= dropped.push(key@));
                assert(dropped.push(key@)[dropped.len() as int] == key@);
                assert forall|other: Seq<char>| other != key@ implies (dropped.push(key@).contains(other)
                    <==> dropped.contains(other)) by {
                    if dropped.push(key@).contains(other) {
                        let k = choose|k: int| 0 <= k < dropped.push(key@).len() && dropped.push(key@)[k] == other;
                        assert(dropped[k] == other);
                    }
                    if dropped.contains(other) {
                        let k = choose|k: int| 0 <= k < dropped.len() && dropped[k] == other;
                        assert(dropped.push(key@)[k] == other);
                    }
                }
            }
        }
        self.keys = kept;
    }

    /// Forgets every fold: another document has been opened here.
    pub fn forget(&mut self)
        ensures
            final(self).folded() == Seq::<Seq<char>>::empty(),
    {
        self.keys = Vec::new();
        assert(self.folded() =~= Seq::<Seq<char>>::empty());
    }
}

} // verus!
