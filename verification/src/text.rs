//! Text as the rest of the library reads it: sequences of characters, and the few
//! operations on them that every module shares — finding a piece of text, cutting a
//! string in two around it, and comparing two names without regard to ASCII case.
use vstd::prelude::*;

verus! {

/// Appending one character to a `String`, as `String::push` documents it.
pub assume_specification[ String::push ](s: &mut String, ch: char)
    ensures
        final(s)@ == old(s)@.push(ch),
;

/// The code `c` compares under when ASCII case is ignored: `A`–`Z` as `a`–`z`, every
/// other character as itself.
pub open spec fn folded(c: char) -> u32 {
    if 65 <= (c as u32) && (c as u32) <= 90 {
        ((c as u32) + 32) as u32
    } else {
        c as u32
    }
}

/// `a` and `b` are the same text once ASCII case is ignored, as `str::eq_ignore_ascii_case`
/// answers it.
pub open spec fn same_ignoring_ascii_case(a: Seq<char>, b: Seq<char>) -> bool {
    &&& a.len() == b.len()
    &&& forall|i: int| 0 <= i < a.len() ==> #[trigger] folded(a[i]) == folded(b[i])
}

/// `pattern` stands in `s` starting at `at`.
pub open spec fn occurs_at<A>(s: Seq<A>, pattern: Seq<A>, at: int) -> bool {
    &&& 0 <= at
    &&& at + pattern.len() <= s.len()
    &&& s.subrange(at, at + pattern.len()) == pattern
}

/// The first place at or after `from` where `pattern` stands in `s`.
pub open spec fn first_from<A>(s: Seq<A>, pattern: Seq<A>, from: int) -> Option<int>
    decreases s.len() + 1 - from,
    when from >= 0
{
    if from > s.len() || from + pattern.len() > s.len() {
        None
    } else if s.subrange(from, from + pattern.len()) == pattern {
        Some(from)
    } else {
        first_from(s, pattern, from + 1)
    }
}

/// The first place `pattern` stands in `s`, as `str::find` answers it.
pub open spec fn first_occurrence<A>(s: Seq<A>, pattern: Seq<A>) -> Option<int> {
    first_from(s, pattern, 0)
}

/// `s` cut around the first `pattern` in it, as `str::split_once` answers it.
pub open spec fn cut_once<A>(s: Seq<A>, pattern: Seq<A>) -> Option<(Seq<A>, Seq<A>)> {
    match first_occurrence(s, pattern) {
        Some(at) => Some((s.take(at), s.skip(at + pattern.len()))),
        None => None,
    }
}

/// What `first_from` answers, stated without recursion: the earliest occurrence at or
/// after `from`, or none at all.
pub proof fn lemma_first_from<A>(s: Seq<A>, pattern: Seq<A>, from: int)
    requires
        0 <= from,
    ensures
        match first_from(s, pattern, from) {
            Some(at) => {
                &&& from <= at
                &&& occurs_at(s, pattern, at)
                &&& forall|j: int| from <= j < at ==> !occurs_at(s, pattern, j)
            },
            None => forall|j: int| from <= j ==> !occurs_at(s, pattern, j),
        },
    decreases s.len() + 1 - from,
{
    if from > s.len() || from + pattern.len() > s.len() {
    } else if s.subrange(from, from + pattern.len()) == pattern {
    } else {
        lemma_first_from(s, pattern, from + 1);
    }
}

/// The characters of `s`, in order.
pub fn chars_of(s: &str) -> (v: Vec<char>)
    ensures
        v@ == s@,
{
    let mut v: Vec<char> = Vec::new();
    for c in it: s.chars()
        invariant
            v@ == it.seq().take(it.index() as int),
    {
        v.push(c);
    }
    v
}

/// The string spelled by `v`.
pub fn string_of(v: &[char]) -> (s: String)
    ensures
        s@ == v@,
{
    let mut s = String::new();
    let mut i: usize = 0;
    while i < v.len()
        invariant
            i <= v.len(),
            s@ == v@.take(i as int),
        decreases v.len() - i,
    {
        s.push(v[i]);
        i = i + 1;
        assert(v@.take(i as int) =~= v@.take(i - 1).push(v@[i - 1]));
    }
    assert(v@.take(v.len() as int) =~= v@);
    s
}

/// The characters of `s` from `from` up to `to`.
pub fn slice_chars(s: &[char], from: usize, to: usize) -> (v: Vec<char>)
    requires
        from <= to <= s.len(),
    ensures
        v@ == s@.subrange(from as int, to as int),
{
    let mut v: Vec<char> = Vec::new();
    let mut i = from;
    while i < to
        invariant
            from <= i <= to <= s.len(),
            v@ == s@.subrange(from as int, i as int),
        decreases to - i,
    {
        v.push(s[i]);
        i = i + 1;
        assert(s@.subrange(from as int, i as int) =~= s@.subrange(from as int, i - 1).push(
            s@[i - 1],
        ));
    }
    v
}

/// The bytes of `s` from `from` up to `to`.
pub fn slice_bytes(s: &[u8], from: usize, to: usize) -> (v: Vec<u8>)
    requires
        from <= to <= s.len(),
    ensures
        v@ == s@.subrange(from as int, to as int),
{
    let mut v: Vec<u8> = Vec::new();
    let mut i = from;
    while i < to
        invariant
            from <= i <= to <= s.len(),
            v@ == s@.subrange(from as int, i as int),
        decreases to - i,
    {
        v.push(s[i]);
        i = i + 1;
        assert(s@.subrange(from as int, i as int) =~= s@.subrange(from as int, i - 1).push(
            s@[i - 1],
        ));
    }
    v
}

/// Appends the characters of `more` to `v`.
pub fn extend_chars(v: &mut Vec<char>, more: &[char])
    ensures
        final(v)@ == old(v)@ + more@,
{
    let ghost start = v@;
    let mut i: usize = 0;
    while i < more.len()
        invariant
            i <= more.len(),
            v@ == start + more@.take(i as int),
        decreases more.len() - i,
    {
        v.push(more[i]);
        i = i + 1;
        assert(more@.take(i as int) =~= more@.take(i - 1).push(more@[i - 1]));
    }
    assert(more@.take(more.len() as int) =~= more@);
}

/// Appends the bytes of `more` to `v`.
pub fn extend_bytes(v: &mut Vec<u8>, more: &[u8])
    ensures
        final(v)@ == old(v)@ + more@,
{
    let ghost start = v@;
    let mut i: usize = 0;
    while i < more.len()
        invariant
            i <= more.len(),
            v@ == start + more@.take(i as int),
        decreases more.len() - i,
    {
        v.push(more[i]);
        i = i + 1;
        assert(more@.take(i as int) =~= more@.take(i - 1).push(more@[i - 1]));
    }
    assert(more@.take(more.len() as int) =~= more@);
}

/// Whether `a` and `b` are the same text once ASCII case is ignored.
pub fn eq_ignore_ascii_case(a: &[char], b: &[char]) -> (same: bool)
    ensures
        same == same_ignoring_ascii_case(a@, b@),
{
    if a.len() != b.len() {
        return false;
    }
    let mut i: usize = 0;
    while i < a.len()
        invariant
            a.len() == b.len(),
            i <= a.len(),
            forall|j: int| 0 <= j < i ==> #[trigger] folded(a@[j]) == folded(b@[j]),
        decreases a.len() - i,
    {
        let x = a[i] as u32;
        let y = b[i] as u32;
        let x = if 65 <= x && x <= 90 { x + 32 } else { x };
        let y = if 65 <= y && y <= 90 { y + 32 } else { y };
        if x != y {
            assert(folded(a@[i as int]) != folded(b@[i as int]));
            return false;
        }
        i = i + 1;
    }
    true
}

/// Whether `a` and `b` hold the same characters.
pub fn same_chars(a: &[char], b: &[char]) -> (same: bool)
    ensures
        same == (a@ == b@),
{
    if a.len() != b.len() {
        return false;
    }
    let mut i: usize = 0;
    while i < a.len()
        invariant
            a.len() == b.len(),
            i <= a.len(),
            forall|j: int| 0 <= j < i ==> a@[j] == b@[j],
        decreases a.len() - i,
    {
        if a[i] != b[i] {
            return false;
        }
        i = i + 1;
    }
    assert(a@ =~= b@);
    true
}

/// Whether `pattern` stands in `s` at `at`.
pub fn stands_at(s: &[char], pattern: &[char], at: usize) -> (found: bool)
    ensures
        found == occurs_at(s@, pattern@, at as int),
{
    if pattern.len() > s.len() || at > s.len() - pattern.len() {
        return false;
    }
    let mut k: usize = 0;
    while k < pattern.len()
        invariant
            at + pattern.len() <= s.len(),
            k <= pattern.len(),
            forall|j: int| 0 <= j < k ==> s@[at + j] == pattern@[j],
        decreases pattern.len() - k,
    {
        if s[at + k] != pattern[k] {
            assert(s@.subrange(at as int, at + pattern.len())[k as int] != pattern@[k as int]);
            return false;
        }
        k = k + 1;
    }
    assert(s@.subrange(at as int, at + pattern.len()) =~= pattern@);
    true
}

/// `c` is white space as `char::is_whitespace` answers it: the Unicode `White_Space`
/// characters.
pub open spec fn is_space(c: char) -> bool {
    let u = c as u32;
    (9 <= u && u <= 13) || u == 32 || u == 0x85 || u == 0xa0 || u == 0x1680 || (0x2000 <= u && u
        <= 0x200a) || u == 0x2028 || u == 0x2029 || u == 0x202f || u == 0x205f || u == 0x3000
}

/// `s` without the white space at its end, as `str::trim_end` gives it.
pub open spec fn trimmed_end(s: Seq<char>) -> Seq<char>
    decreases s.len(),
{
    if s.len() > 0 && is_space(s.last()) {
        trimmed_end(s.drop_last())
    } else {
        s
    }
}

/// `s` without the white space at its start, as `str::trim_start` gives it.
pub open spec fn trimmed_start(s: Seq<char>) -> Seq<char>
    decreases s.len(),
{
    if s.len() > 0 && is_space(s[0]) {
        trimmed_start(s.drop_first())
    } else {
        s
    }
}

/// `s` without white space at either end, as `str::trim` gives it.
pub open spec fn trimmed(s: Seq<char>) -> Seq<char> {
    trimmed_start(trimmed_end(s))
}

fn space(c: char) -> (yes: bool)
    ensures
        yes == is_space(c),
{
    let u = c as u32;
    (9 <= u && u <= 13) || u == 32 || u == 0x85 || u == 0xa0 || u == 0x1680 || (0x2000 <= u && u
        <= 0x200a) || u == 0x2028 || u == 0x2029 || u == 0x202f || u == 0x205f || u == 0x3000
}

/// `s` without the white space at its end.
pub fn trim_end(s: &[char]) -> (t: Vec<char>)
    ensures
        t@ == trimmed_end(s@),
{
    let mut end = s.len();
    assert(s@.take(end as int) =~= s@);
    while end > 0 && space(s[end - 1])
        invariant
            end <= s.len(),
            trimmed_end(s@) == trimmed_end(s@.take(end as int)),
        decreases end,
    {
        assert(s@.take(end as int).drop_last() =~= s@.take(end - 1));
        end = end - 1;
    }
    let t = slice_chars(s, 0, end);
    assert(t@ =~= s@.take(end as int));
    t
}

/// `s` without white space at either end.
pub fn trim(s: &[char]) -> (t: Vec<char>)
    ensures
        t@ == trimmed(s@),
{
    let e = trim_end(s);
    let mut start: usize = 0;
    assert(e@.skip(0) =~= e@);
    while start < e.len() && space(e[start])
        invariant
            start <= e.len(),
            trimmed_start(e@) == trimmed_start(e@.skip(start as int)),
        decreases e.len() - start,
    {
        assert(e@.skip(start as int).drop_first() =~= e@.skip(start + 1));
        start = start + 1;
    }
    let t = slice_chars(&e, start, e.len());
    assert(t@ =~= e@.skip(start as int));
    t
}

/// Where `pattern` first stands in `s`.
pub fn find(s: &[char], pattern: &[char]) -> (at: Option<usize>)
    ensures
        match at {
            Some(i) => first_occurrence(s@, pattern@) == Some(i as int),
            None => first_occurrence(s@, pattern@) is None,
        },
{
    if pattern.len() > s.len() {
        proof {
            lemma_first_from(s@, pattern@, 0);
        }
        return None;
    }
    let last = s.len() - pattern.len();
    let mut i: usize = 0;
    loop
        invariant
            last + pattern.len() == s.len(),
            i <= last,
            first_from(s@, pattern@, 0) == first_from(s@, pattern@, i as int),
        decreases last - i,
    {
        if stands_at(s, pattern, i) {
            return Some(i);
        }
        if i == last {
            assert(first_from(s@, pattern@, i + 1) is None);
            return None;
        }
        i = i + 1;
    }
}

/// `s` cut around the first `pattern` in it.
pub fn split_once(s: &[char], pattern: &[char]) -> (parts: Option<(Vec<char>, Vec<char>)>)
    ensures
        match parts {
            Some((before, after)) => cut_once(s@, pattern@) == Some((before@, after@)),
            None => cut_once(s@, pattern@) is None,
        },
{
    match find(s, pattern) {
        Some(at) => {
            proof {
                lemma_first_from(s@, pattern@, 0);
                assert(first_from(s@, pattern@, 0) == Some(at as int));
                assert(occurs_at(s@, pattern@, at as int));
                assert(at + pattern@.len() <= s@.len());
            }
            assert(at + pattern.len() <= s.len());
            let end = at + pattern.len();
            let before = slice_chars(s, 0, at);
            let after = slice_chars(s, end, s.len());
            assert(before@ =~= s@.take(at as int));
            assert(after@ =~= s@.skip(at + pattern.len()));
            Some((before, after))
        },
        None => None,
    }
}

/// `s` without `prefix` in front of it, when it starts with one.
pub fn strip_prefix(s: &[char], prefix: &[char]) -> (rest: Option<Vec<char>>)
    ensures
        match rest {
            Some(r) => occurs_at(s@, prefix@, 0) && r@ == s@.skip(prefix@.len() as int),
            None => !occurs_at(s@, prefix@, 0),
        },
{
    if stands_at(s, prefix, 0) {
        let r = slice_chars(s, prefix.len(), s.len());
        assert(r@ =~= s@.skip(prefix@.len() as int));
        Some(r)
    } else {
        None
    }
}

/// The first position of `byte` in `s`.
pub fn position_of_byte(s: &[u8], byte: u8) -> (at: Option<usize>)
    ensures
        match at {
            Some(i) => i < s.len() && s@[i as int] == byte && forall|j: int|
                0 <= j < i ==> s@[j] != byte,
            None => forall|j: int| 0 <= j < s.len() ==> s@[j] != byte,
        },
{
    let mut i: usize = 0;
    while i < s.len()
        invariant
            i <= s.len(),
            forall|j: int| 0 <= j < i ==> s@[j] != byte,
        decreases s.len() - i,
    {
        if s[i] == byte {
            return Some(i);
        }
        i = i + 1;
    }
    None
}

/// Whether two texts are the same characters.
pub fn same_text(a: &str, b: &str) -> (same: bool)
    ensures
        same == (a@ == b@),
{
    same_chars(&chars_of(a), &chars_of(b))
}

/// The texts `v` holds, as the rules speak of them.
pub open spec fn texts(v: Seq<String>) -> Seq<Seq<char>> {
    v.map_values(|s: String| s@)
}

/// `list` with every entry equal to `item` taken out, the rest in order.
pub open spec fn dropped(list: Seq<Seq<char>>, item: Seq<char>) -> Seq<Seq<char>>
    decreases list.len(),
{
    if list.len() == 0 {
        seq![]
    } else {
        let rest = dropped(list.drop_last(), item);
        if list.last() == item {
            rest
        } else {
            rest.push(list.last())
        }
    }
}

/// Whether `list` holds `item`.
pub fn holds(list: &[String], item: &str) -> (found: bool)
    ensures
        found == texts(list@).contains(item@),
{
    let ghost all = texts(list@);
    let mut i: usize = 0;
    while i < list.len()
        invariant
            i <= list.len(),
            all == texts(list@),
            forall|j: int| 0 <= j < i ==> all[j] != item@,
        decreases list.len() - i,
    {
        if same_text(list[i].as_str(), item) {
            assert(all[i as int] == item@);
            return true;
        }
        i = i + 1;
    }
    false
}

/// `list` with every entry equal to `item` taken out, the rest in order.
pub fn dropping(list: &[String], item: &str) -> (kept: Vec<String>)
    ensures
        texts(kept@) == dropped(texts(list@), item@),
{
    let ghost all = texts(list@);
    let mut kept: Vec<String> = Vec::new();
    let mut i: usize = 0;
    while i < list.len()
        invariant
            i <= list.len(),
            all == texts(list@),
            texts(kept@) == dropped(all.take(i as int), item@),
        decreases list.len() - i,
    {
        proof {
            assert(all.take(i + 1).drop_last() =~= all.take(i as int));
            assert(all.take(i + 1).last() == all[i as int]);
        }
        if !same_text(list[i].as_str(), item) {
            kept.push(list[i].clone());
            assert(texts(kept@) =~= dropped(all.take(i as int), item@).push(all[i as int]));
        }
        i = i + 1;
    }
    assert(all.take(i as int) =~= all);
    kept
}

/// What is left once `item` is dropped from `list` is everything else `list` held.
pub proof fn lemma_dropped(list: Seq<Seq<char>>, item: Seq<char>, other: Seq<char>)
    ensures
        dropped(list, item).contains(other) <==> (other != item && list.contains(other)),
    decreases list.len(),
{
    if list.len() > 0 {
        lemma_dropped(list.drop_last(), item, other);
        let rest = dropped(list.drop_last(), item);
        if rest.contains(other) {
            let k = choose|k: int| 0 <= k < rest.len() && rest[k] == other;
            if list.last() != item {
                assert(rest.push(list.last())[k] == other);
            }
            let j = choose|j: int| 0 <= j < list.drop_last().len() && list.drop_last()[j] == other;
            assert(list[j] == other);
        }
        if other != item && list.contains(other) {
            let j = choose|j: int| 0 <= j < list.len() && list[j] == other;
            if j == list.len() - 1 {
                assert(rest.push(list.last()).last() == other);
            } else {
                assert(list.drop_last()[j] == other);
            }
        }
        if dropped(list, item).contains(other) && !rest.contains(other) {
            assert(list.last() == other);
            assert(list[list.len() - 1] == other);
        }
    }
}

/// Dropping what a list does not hold leaves it as it was.
pub proof fn lemma_dropped_absent(list: Seq<Seq<char>>, item: Seq<char>)
    requires
        !list.contains(item),
    ensures
        dropped(list, item) == list,
    decreases list.len(),
{
    if list.len() > 0 {
        assert(!list.drop_last().contains(item)) by {
            if list.drop_last().contains(item) {
                let k = choose|k: int| 0 <= k < list.drop_last().len() && list.drop_last()[k] == item;
                assert(list[k] == item);
            }
        }
        lemma_dropped_absent(list.drop_last(), item);
        assert(list.last() != item) by {
            if list.last() == item {
                assert(list[list.len() - 1] == item);
            }
        }
        assert(list.drop_last().push(list.last()) =~= list);
    }
}

} // verus!
