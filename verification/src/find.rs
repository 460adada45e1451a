//! The reader's search: what a query matches in a text, and the counter that walks the
//! matches.
//!
//! Both surfaces a document is shown on search by [`Query::matches`], so the rule of
//! what a match is lives here once: matches come in order, never overlap, and compare
//! character by character — case ignored unless the reader asks for it, by comparing
//! the lowercase forms of the two characters rather than of the two strings, so that an
//! offset never drifts.
//!
//! [`Search`] is the arithmetic the bar does over the count a surface reports: which
//! match is current, what walking past either end does, and what the counter reads.
use vstd::prelude::*;
use crate::text::{chars_of, same_chars};

verus! {

/// What `char::to_lowercase` gives for `c`: the characters of its lowercase form.
pub uninterp spec fn lowercase_of(c: char) -> Seq<char>;

/// `char::to_lowercase`, collected. The contract names its result and says no more:
/// which characters a lowercase form holds is the standard library's Unicode tables.
#[verifier::external_body]
fn lowercase(c: char) -> (lower: Vec<char>)
    ensures
        lower@ == lowercase_of(c),
{
    c.to_lowercase().collect()
}

/// The search actions, by the full names widgets and shortcuts use.
pub const FIND: &'static str = "win.find";
pub const FIND_NEXT: &'static str = "win.find-next";
pub const FIND_PREVIOUS: &'static str = "win.find-previous";
pub const FIND_CLOSE: &'static str = "win.find-close";

/// What the reader is looking for.
pub struct Query {
    pub text: String,
    /// Off by default: a reader who types `needle` means `Needle` too until they say
    /// otherwise.
    pub cased: bool,
}

/// `here` in a document counts as `wanted` in a query.
pub open spec fn alike(here: char, wanted: char, cased: bool) -> bool {
    here == wanted || (!cased && lowercase_of(here) == lowercase_of(wanted))
}

/// `needle` matches `haystack` starting at `at`, character by character.
pub open spec fn matches_at(haystack: Seq<char>, needle: Seq<char>, at: int, cased: bool) -> bool {
    forall|k: int| 0 <= k < needle.len() ==> #[trigger] alike(haystack[at + k], needle[k], cased)
}

/// The matches found scanning `haystack` from `at`: each one taken as soon as it is
/// reached, and the scan carried on from its end.
pub open spec fn scan(haystack: Seq<char>, needle: Seq<char>, cased: bool, at: int) -> Seq<(int, int)>
    decreases haystack.len() - at,
    when at >= 0
{
    if needle.len() == 0 || at + needle.len() > haystack.len() {
        seq![]
    } else if matches_at(haystack, needle, at, cased) {
        seq![(at, at + needle.len())] + scan(haystack, needle, cased, at + needle.len())
    } else {
        scan(haystack, needle, cased, at + 1)
    }
}

/// Where `needle` occurs in `haystack`, as `(start, end)` in characters, in order.
pub open spec fn occurrences(haystack: Seq<char>, needle: Seq<char>, cased: bool) -> Seq<(int, int)> {
    if needle.len() == 0 || needle.len() > haystack.len() {
        seq![]
    } else {
        scan(haystack, needle, cased, 0)
    }
}

/// The spans `v` holds, as integers.
pub open spec fn spans(v: Seq<(usize, usize)>) -> Seq<(int, int)> {
    v.map_values(|p: (usize, usize)| (p.0 as int, p.1 as int))
}

/// Whether the two queries ask for the same thing.
pub fn same_query(a: &Query, b: &Query) -> (same: bool)
    ensures
        same == (a.text@ == b.text@ && a.cased == b.cased),
{
    a.text == b.text && a.cased == b.cased
}

fn alike_exec(here: char, wanted: char, cased: bool) -> (same: bool)
    ensures
        same == alike(here, wanted, cased),
{
    if here == wanted {
        return true;
    }
    if cased {
        return false;
    }
    let a = lowercase(here);
    let b = lowercase(wanted);
    same_chars(&a, &b)
}

fn matches_here(haystack: &[char], needle: &[char], at: usize, cased: bool) -> (found: bool)
    requires
        at + needle.len() <= haystack.len(),
    ensures
        found == matches_at(haystack@, needle@, at as int, cased),
{
    let mut k: usize = 0;
    while k < needle.len()
        invariant
            at + needle.len() <= haystack.len(),
            k <= needle.len(),
            forall|j: int| 0 <= j < k ==> #[trigger] alike(haystack@[at + j], needle@[j], cased),
        decreases needle.len() - k,
    {
        if !alike_exec(haystack[at + k], needle[k], cased) {
            return false;
        }
        k = k + 1;
    }
    true
}

impl Query {
    /// A query for `text`, compared ignoring case unless `cased`.
    pub fn new(text: &str, cased: bool) -> (q: Query)
        ensures
            q.text@ == text@,
            q.cased == cased,
    {
        Query { text: text.to_owned(), cased }
    }

    /// Where this query occurs in `haystack`, as `(start, end)` in characters, in
    /// order.
    ///
    /// Occurrences do not overlap — `aa` is in `aaa` once — and an empty query, or one
    /// longer than the text, matches nothing.
    pub fn matches(&self, haystack: &[char]) -> (found: Vec<(usize, usize)>)
        ensures
            spans(found@) == occurrences(haystack@, self.text@, self.cased),
    {
        let needle = chars_of(self.text.as_str());
        let mut found: Vec<(usize, usize)> = Vec::new();
        if needle.len() == 0 || needle.len() > haystack.len() {
            assert(spans(found@) =~= Seq::<(int, int)>::empty());
            return found;
        }
        let cased = self.cased;
        let mut at: usize = 0;
        while needle.len() <= haystack.len() - at
            invariant
                needle@ == self.text@,
                cased == self.cased,
                0 < needle.len() <= haystack.len(),
                at <= haystack.len(),
                spans(found@) + scan(haystack@, needle@, cased, at as int) == occurrences(
                    haystack@,
                    needle@,
                    cased,
                ),
            decreases haystack.len() - at,
        {
            let ghost before = found@;
            if matches_here(haystack, &needle, at, cased) {
                let end = at + needle.len();
                found.push((at, end));
                assert(spans(found@) =~= spans(before).push((at as int, end as int)));
                assert(spans(found@) + scan(haystack@, needle@, cased, end as int) =~= spans(before)
                    + (seq![(at as int, end as int)] + scan(haystack@, needle@, cased, end as int)));
                at = end;
            } else {
                at = at + 1;
            }
        }
        assert(scan(haystack@, needle@, cased, at as int) =~= Seq::<(int, int)>::empty());
        assert(spans(found@) + Seq::<(int, int)>::empty() =~= spans(found@));
        found
    }
}

/// Everything a scan from `at` finds lies at or after `at`, inside the text, in order,
/// not overlapping, as long as the query, and matching it.
pub proof fn lemma_scan_shape(haystack: Seq<char>, needle: Seq<char>, cased: bool, at: int)
    requires
        0 <= at,
    ensures
        forall|i: int| 0 <= i < scan(haystack, needle, cased, at).len() ==> {
            let span = #[trigger] scan(haystack, needle, cased, at)[i];
            &&& at <= span.0
            &&& span.1 == span.0 + needle.len()
            &&& span.1 <= haystack.len()
            &&& matches_at(haystack, needle, span.0, cased)
        },
        forall|i: int, j: int|
            0 <= i < j < scan(haystack, needle, cased, at).len() ==> (#[trigger] scan(
                haystack,
                needle,
                cased,
                at,
            )[i]).1 <= (#[trigger] scan(haystack, needle, cased, at)[j]).0,
    decreases haystack.len() - at,
{
    if needle.len() == 0 || at + needle.len() > haystack.len() {
    } else if matches_at(haystack, needle, at, cased) {
        lemma_scan_shape(haystack, needle, cased, at + needle.len());
        let rest = scan(haystack, needle, cased, at + needle.len());
        let all = scan(haystack, needle, cased, at);
        assert(all =~= seq![(at, at + needle.len())] + rest);
        assert forall|i: int, j: int| 0 <= i < j < all.len() implies (#[trigger] all[i]).1 <= (
        #[trigger] all[j]).0 by {
            if i == 0 {
                assert(all[j] == rest[j - 1]);
            } else {
                assert(all[i] == rest[i - 1]);
                assert(all[j] == rest[j - 1]);
            }
        }
        assert forall|i: int| 0 <= i < all.len() implies {
            let span = #[trigger] all[i];
            &&& at <= span.0
            &&& span.1 == span.0 + needle.len()
            &&& span.1 <= haystack.len()
            &&& matches_at(haystack, needle, span.0, cased)
        } by {
            if i > 0 {
                assert(all[i] == rest[i - 1]);
            }
        }
    } else {
        lemma_scan_shape(haystack, needle, cased, at + 1);
        assert(scan(haystack, needle, cased, at) == scan(haystack, needle, cased, at + 1));
    }
}

/// The rule both surfaces search by: every match lies inside the text, is exactly as
/// long as the query, really matches it, and comes after the one before it without
/// overlapping it.
pub proof fn law_matches_are_in_order_and_never_overlap(haystack: Seq<char>, needle: Seq<char>, cased: bool)
    ensures
        forall|i: int| 0 <= i < occurrences(haystack, needle, cased).len() ==> {
            let span = #[trigger] occurrences(haystack, needle, cased)[i];
            &&& 0 <= span.0
            &&& span.1 == span.0 + needle.len()
            &&& span.1 <= haystack.len()
            &&& matches_at(haystack, needle, span.0, cased)
        },
        forall|i: int, j: int|
            0 <= i < j < occurrences(haystack, needle, cased).len() ==> (#[trigger] occurrences(
                haystack,
                needle,
                cased,
            )[i]).1 <= (#[trigger] occurrences(haystack, needle, cased)[j]).0,
{
    lemma_scan_shape(haystack, needle, cased, 0);
}

proof fn lemma_scan_meets(haystack: Seq<char>, needle: Seq<char>, cased: bool, at: int, p: int)
    requires
        0 <= at <= p,
        needle.len() > 0,
        p + needle.len() <= haystack.len(),
        matches_at(haystack, needle, p, cased),
    ensures
        exists|k: int|
            0 <= k < scan(haystack, needle, cased, at).len() && (#[trigger] scan(
                haystack,
                needle,
                cased,
                at,
            )[k]).0 <= p < scan(haystack, needle, cased, at)[k].1,
    decreases haystack.len() - at,
{
    let all = scan(haystack, needle, cased, at);
    if matches_at(haystack, needle, at, cased) {
        let rest = scan(haystack, needle, cased, at + needle.len());
        assert(all =~= seq![(at, at + needle.len())] + rest);
        if p < at + needle.len() {
            assert(all[0].0 <= p < all[0].1);
        } else {
            lemma_scan_meets(haystack, needle, cased, at + needle.len(), p);
            let k = choose|k: int| 0 <= k < rest.len() && (#[trigger] rest[k]).0 <= p < rest[k].1;
            assert(all[k + 1] == rest[k]);
        }
    } else {
        lemma_scan_meets(haystack, needle, cased, at + 1, p);
        assert(all == scan(haystack, needle, cased, at + 1));
    }
}

/// No match is missed: wherever the query matches the text, one of the matches found
/// starts there or covers the place — so a window left out is left out only because an
/// earlier match already took its start.
pub proof fn law_every_window_meets_a_match(haystack: Seq<char>, needle: Seq<char>, cased: bool, p: int)
    requires
        needle.len() > 0,
        0 <= p,
        p + needle.len() <= haystack.len(),
        matches_at(haystack, needle, p, cased),
    ensures
        exists|k: int|
            0 <= k < occurrences(haystack, needle, cased).len() && (#[trigger] occurrences(
                haystack,
                needle,
                cased,
            )[k]).0 <= p < occurrences(haystack, needle, cased)[k].1,
{
    lemma_scan_meets(haystack, needle, cased, 0, p);
    let all = scan(haystack, needle, cased, 0);
    assert(occurrences(haystack, needle, cased) == all);
    let k = choose|k: int| 0 <= k < all.len() && (#[trigger] all[k]).0 <= p < all[k].1;
    assert(occurrences(haystack, needle, cased)[k] == all[k]);
}

proof fn lemma_scan_is_largest(haystack: Seq<char>, needle: Seq<char>, cased: bool, at: int, starts: Seq<int>)
    requires
        0 <= at,
        needle.len() > 0,
        forall|i: int|
            0 <= i < starts.len() ==> at <= #[trigger] starts[i] && starts[i] + needle.len()
                <= haystack.len() && matches_at(haystack, needle, starts[i], cased),
        forall|i: int, j: int|
            0 <= i < j < starts.len() ==> #[trigger] starts[i] + needle.len() <= #[trigger] starts[j],
    ensures
        starts.len() <= scan(haystack, needle, cased, at).len(),
    decreases haystack.len() - at,
{
    if starts.len() > 0 {
        let q = starts[0];
        assert(at + needle.len() <= haystack.len());
        if matches_at(haystack, needle, at, cased) {
            let later = starts.drop_first();
            assert forall|i: int| 0 <= i < later.len() implies at + needle.len() <= #[trigger] later[i]
                && later[i] + needle.len() <= haystack.len() && matches_at(
                haystack,
                needle,
                later[i],
                cased,
            ) by {
                assert(later[i] == starts[i + 1]);
                assert(starts[0] + needle.len() <= starts[i + 1]);
            }
            assert forall|i: int, j: int| 0 <= i < j < later.len() implies #[trigger] later[i]
                + needle.len() <= #[trigger] later[j] by {
                assert(starts[i + 1] + needle.len() <= starts[j + 1]);
            }
            lemma_scan_is_largest(haystack, needle, cased, at + needle.len(), later);
        } else {
            assert(q != at);
            assert forall|i: int| 0 <= i < starts.len() implies at + 1 <= #[trigger] starts[i] by {
                if i > 0 {
                    assert(starts[0] + needle.len() <= starts[i]);
                }
            }
            lemma_scan_is_largest(haystack, needle, cased, at + 1, starts);
        }
    }
}

/// The matches found are as many as can be had: no set of places the query matches at
/// without overlapping is larger. Asked of a query that is not empty.
pub proof fn law_no_larger_set_of_matches(haystack: Seq<char>, needle: Seq<char>, cased: bool, starts: Seq<int>)
    requires
        needle.len() > 0,
        forall|i: int|
            0 <= i < starts.len() ==> 0 <= #[trigger] starts[i] && starts[i] + needle.len()
                <= haystack.len() && matches_at(haystack, needle, starts[i], cased),
        forall|i: int, j: int|
            0 <= i < j < starts.len() ==> #[trigger] starts[i] + needle.len() <= #[trigger] starts[j],
    ensures
        starts.len() <= occurrences(haystack, needle, cased).len(),
{
    if needle.len() > haystack.len() && starts.len() > 0 {
        assert(starts[0] + needle.len() <= haystack.len());
    }
    lemma_scan_is_largest(haystack, needle, cased, 0, starts);
}

/// What the bar says after walking the matches has carried the reader past an end of
/// the document and round to the other one.
#[derive(Clone, Copy, PartialEq, Eq, Debug, Structural)]
pub enum Wrapped {
    No,
    ToTheTop,
    ToTheBottom,
}

/// What the counter reads.
#[derive(Clone, Copy, PartialEq, Eq, Debug, Structural)]
pub enum Counter {
    /// Nothing is being searched for.
    Blank,
    /// The document has none of what the reader asked for.
    NothingFound,
    /// The current match, counting from one, of how many there are.
    At { position: usize, total: usize },
}

/// What the surface the reader is on is asked to do after a search is run.
#[derive(Clone, Copy, PartialEq, Eq, Debug, Structural)]
pub enum Showing {
    /// Take every mark off: there is nothing to search for.
    Nothing,
    /// Mark every match and make the `nth` current.
    Matches { nth: usize },
}

/// The one search a window is running, and where the reader is in its matches.
pub struct Search {
    running: Query,
    total: usize,
    at: usize,
    wrapped: Wrapped,
}

impl Search {
    /// Whether this search state is one the bar can be in: a current match exists
    /// whenever there are matches.
    pub open spec fn well_formed(&self) -> bool {
        self.total_spec() > 0 ==> self.at_spec() < self.total_spec()
    }

    /// How many matches the search the counter is counting made.
    pub closed spec fn total_spec(&self) -> nat {
        self.total as nat
    }

    /// Which of them is current, counting from zero.
    pub closed spec fn at_spec(&self) -> nat {
        self.at as nat
    }

    /// The query the counter is counting.
    pub closed spec fn running_spec(&self) -> (Seq<char>, bool) {
        (self.running.text@, self.running.cased)
    }

    /// The wrap message the bar shows.
    pub closed spec fn wrapped_spec(&self) -> Wrapped {
        self.wrapped
    }

    /// A bar searching for nothing.
    pub fn new() -> (s: Search)
        ensures
            s.well_formed(),
            s.total_spec() == 0,
            s.at_spec() == 0,
            s.running_spec() == (Seq::<char>::empty(), false),
            s.wrapped_spec() == Wrapped::No,
    {
        Search { running: Query { text: String::new(), cased: false }, total: 0, at: 0, wrapped: Wrapped::No }
    }

    /// The query the bar is running.
    pub fn running(&self) -> (q: &Query)
        ensures
            (q.text@, q.cased) == self.running_spec(),
    {
        &self.running
    }

    /// Which match is current, counting from zero.
    pub fn at(&self) -> (at: usize)
        ensures
            at == self.at_spec(),
    {
        self.at
    }

    /// What the bar says about wrapping.
    pub fn wrapped(&self) -> (w: Wrapped)
        ensures
            w == self.wrapped_spec(),
    {
        self.wrapped
    }

    /// Searches for `wanted`: a different query starts again from its first match and
    /// forgets any wrap; an empty one shows nothing and counts nothing.
    pub fn run(&mut self, wanted: Query) -> (show: Showing)
        requires
            old(self).well_formed(),
        ensures
            final(self).well_formed(),
            final(self).running_spec() == (wanted.text@, wanted.cased),
            old(self).running_spec() != (wanted.text@, wanted.cased) ==> final(self).at_spec() == 0
                && final(self).wrapped_spec() == Wrapped::No,
            old(self).running_spec() == (wanted.text@, wanted.cased) ==> final(self).at_spec()
                == old(self).at_spec() && final(self).wrapped_spec() == old(self).wrapped_spec(),
            wanted.text@.len() == 0 ==> show == Showing::Nothing && final(self).total_spec() == 0,
            wanted.text@.len() > 0 ==> show == (Showing::Matches { nth: final(self).at_spec() as usize })
                && final(self).total_spec() == old(self).total_spec(),
    {
        if !same_query(&self.running, &wanted) {
            self.at = 0;
            self.wrapped = Wrapped::No;
        }
        let empty = wanted.text.as_str().is_empty();
        self.running = wanted;
        if empty {
            self.total = 0;
            Showing::Nothing
        } else {
            Showing::Matches { nth: self.at }
        }
    }

    /// Walks to the next match, or the one before, and says when that carried the
    /// reader past an end of the document and round to the other one. Answers which
    /// match the surface is to make current, or nothing when there are no matches.
    pub fn step(&mut self, forward: bool) -> (nth: Option<usize>)
        requires
            old(self).well_formed(),
        ensures
            final(self).well_formed(),
            final(self).total_spec() == old(self).total_spec(),
            final(self).running_spec() == old(self).running_spec(),
            old(self).total_spec() == 0 ==> nth is None && final(self).at_spec() == old(self).at_spec()
                && final(self).wrapped_spec() == old(self).wrapped_spec(),
            old(self).total_spec() > 0 ==> nth == Some(final(self).at_spec() as usize),
            old(self).total_spec() > 0 && forward ==> final(self).at_spec() == (old(self).at_spec()
                + 1) % old(self).total_spec() && final(self).wrapped_spec() == (if old(self).at_spec() + 1
                == old(self).total_spec() {
                Wrapped::ToTheTop
            } else {
                Wrapped::No
            }),
            old(self).total_spec() > 0 && !forward ==> final(self).at_spec() == (if old(self).at_spec()
                == 0 {
                old(self).total_spec() - 1
            } else {
                old(self).at_spec() - 1
            }) && final(self).wrapped_spec() == (if old(self).at_spec() == 0 {
                Wrapped::ToTheBottom
            } else {
                Wrapped::No
            }),
    {
        let total = self.total;
        if total == 0 {
            return None;
        }
        let at = self.at;
        if forward {
            if at + 1 >= total {
                assert((at + 1) as nat % (total as nat) == 0) by (nonlinear_arith)
                    requires
                        at + 1 == total,
                ;
                self.at = 0;
                self.wrapped = Wrapped::ToTheTop;
            } else {
                assert((at + 1) as nat % (total as nat) == at + 1) by (nonlinear_arith)
                    requires
                        at + 1 < total,
                ;
                self.at = at + 1;
                self.wrapped = Wrapped::No;
            }
        } else {
            if at == 0 {
                self.at = total - 1;
                self.wrapped = Wrapped::ToTheBottom;
            } else {
                self.at = at - 1;
                self.wrapped = Wrapped::No;
            }
        }
        Some(self.at)
    }

    /// A surface's count of `counted`: it becomes the counter's, unless the reader has
    /// moved on to another search since it was asked.
    pub fn counted(&mut self, counted: &Query, total: usize)
        requires
            old(self).well_formed(),
        ensures
            final(self).well_formed(),
            final(self).running_spec() == old(self).running_spec(),
            final(self).wrapped_spec() == old(self).wrapped_spec(),
            old(self).running_spec() != (counted.text@, counted.cased) ==> final(self).total_spec()
                == old(self).total_spec() && final(self).at_spec() == old(self).at_spec(),
            old(self).running_spec() == (counted.text@, counted.cased) ==> final(self).total_spec()
                == total && (total > 0 ==> final(self).at_spec() == old(self).at_spec() % (
            total as nat)) && (total == 0 ==> final(self).at_spec() == old(self).at_spec()),
    {
        if !same_query(&self.running, counted) {
            return;
        }
        self.total = total;
        if total > 0 {
            self.at = self.at % total;
        }
    }

    /// What the counter reads — and, when the document has none of the query, the
    /// wrap message goes with the matches it was about.
    pub fn retell(&mut self) -> (said: Counter)
        requires
            old(self).well_formed(),
        ensures
            final(self).well_formed(),
            final(self).total_spec() == old(self).total_spec(),
            final(self).at_spec() == old(self).at_spec(),
            final(self).running_spec() == old(self).running_spec(),
            old(self).running_spec().0.len() == 0 ==> said == Counter::Blank
                && final(self).wrapped_spec() == old(self).wrapped_spec(),
            old(self).running_spec().0.len() > 0 && old(self).total_spec() == 0 ==> said
                == Counter::NothingFound && final(self).wrapped_spec() == Wrapped::No,
            old(self).running_spec().0.len() > 0 && old(self).total_spec() > 0 ==> said == (Counter::At {
                position: (old(self).at_spec() + 1) as usize,
                total: old(self).total_spec() as usize,
            }) && final(self).wrapped_spec() == old(self).wrapped_spec(),
    {
        if self.running.text.as_str().is_empty() {
            return Counter::Blank;
        }
        if self.total == 0 {
            self.wrapped = Wrapped::No;
            return Counter::NothingFound;
        }
        Counter::At { position: self.at + 1, total: self.total }
    }

    /// Everything closing the search undoes.
    pub fn put_away(&mut self)
        ensures
            final(self).well_formed(),
            final(self).total_spec() == 0,
            final(self).at_spec() == 0,
            final(self).running_spec() == (Seq::<char>::empty(), false),
            final(self).wrapped_spec() == Wrapped::No,
    {
        *self = Search::new();
    }

    /// The reader has moved to the other surface: the search starts again from its
    /// first match there, with no wrap to speak of.
    pub fn look_elsewhere(&mut self)
        requires
            old(self).well_formed(),
        ensures
            final(self).well_formed(),
            final(self).at_spec() == 0,
            final(self).wrapped_spec() == Wrapped::No,
            final(self).total_spec() == old(self).total_spec(),
            final(self).running_spec() == old(self).running_spec(),
    {
        self.at = 0;
        self.wrapped = Wrapped::No;
    }
}

/// Walking forward through all the matches brings the reader back to the one they
/// started on, and walking back undoes walking forward.
pub proof fn law_stepping_round_the_matches(at: nat, total: nat)
    requires
        0 < total,
        at < total,
    ensures
        (at + 1) % total < total,
        ({
            let next = (at + 1) % total;
            (if next == 0 {
                total - 1
            } else {
                next - 1
            }) == at
        }),
{
    if at + 1 < total {
        assert((at + 1) % total == at + 1) by (nonlinear_arith)
            requires
                at + 1 < total,
        ;
    } else {
        assert((at + 1) % total == 0) by (nonlinear_arith)
            requires
                at + 1 == total,
        ;
    }
}

/// An empty query matches nothing, whatever the text.
pub proof fn law_an_empty_query_matches_nothing(haystack: Seq<char>, cased: bool)
    ensures
        occurrences(haystack, Seq::<char>::empty(), cased).len() == 0,
{
}

} // verus!
