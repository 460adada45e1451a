//! Paths as text: the name at the end of one, the extension of that name, and the
//! containment rule every reach of a document for a file goes through.
//!
//! The first two read a path the way `std::path::Path` reads a Unix one —
//! `Path::file_name` and `Path::extension` — so that a question about a name is
//! answered the same way for a bare name and for a whole path of any shape.
use vstd::prelude::*;
use crate::text::{extend_chars, slice_chars};

verus! {

/// Where the last segment of `p` begins: just after its last `/`, or at its start.
pub open spec fn segment_start(p: Seq<char>) -> int
    decreases p.len(),
{
    if p.len() == 0 {
        0
    } else if p.last() == '/' {
        p.len() as int
    } else {
        segment_start(p.drop_last())
    }
}

/// The name at the end of `p`, as `Path::file_name` gives it: trailing slashes and `.`
/// components are not names, and a path ending in `..` names no file.
pub open spec fn file_name(p: Seq<char>) -> Option<Seq<char>>
    decreases p.len(),
{
    if p.len() == 0 {
        None
    } else if p.last() == '/' {
        file_name(p.drop_last())
    } else {
        let start = segment_start(p);
        let segment = p.skip(start);
        if 0 <= start < p.len() && segment == seq!['.'] {
            file_name(p.take(start))
        } else if segment == seq!['.', '.'] {
            None
        } else {
            Some(segment)
        }
    }
}

/// Where the last `.` of `name` is.
pub open spec fn last_dot(name: Seq<char>) -> Option<int>
    decreases name.len(),
{
    if name.len() == 0 {
        None
    } else if name.last() == '.' {
        Some(name.len() - 1)
    } else {
        last_dot(name.drop_last())
    }
}

/// The extension of the name `name`, as `Path::extension` gives it: what follows its
/// last `.`, unless that dot is the name's first character.
pub open spec fn name_extension(name: Seq<char>) -> Option<Seq<char>> {
    match last_dot(name) {
        Some(i) => if i > 0 {
            Some(name.skip(i + 1))
        } else {
            None
        },
        None => None,
    }
}

/// The extension of the file `p` names.
pub open spec fn extension(p: Seq<char>) -> Option<Seq<char>> {
    match file_name(p) {
        Some(name) => name_extension(name),
        None => None,
    }
}

proof fn lemma_segment_start(p: Seq<char>)
    ensures
        0 <= segment_start(p) <= p.len(),
        forall|i: int| segment_start(p) <= i < p.len() ==> p[i] != '/',
        segment_start(p) > 0 ==> p[segment_start(p) - 1] == '/',
    decreases p.len(),
{
    if p.len() > 0 && p.last() != '/' {
        lemma_segment_start(p.drop_last());
        assert forall|i: int| segment_start(p) <= i < p.len() implies p[i] != '/' by {
            if i < p.len() - 1 {
                assert(p[i] == p.drop_last()[i]);
            }
        }
    }
}

proof fn lemma_last_dot(name: Seq<char>)
    ensures
        match last_dot(name) {
            Some(i) => 0 <= i < name.len() && name[i] == '.' && forall|j: int|
                i < j < name.len() ==> name[j] != '.',
            None => forall|j: int| 0 <= j < name.len() ==> name[j] != '.',
        },
    decreases name.len(),
{
    if name.len() > 0 && name.last() != '.' {
        lemma_last_dot(name.drop_last());
        match last_dot(name) {
            Some(i) => {
                assert forall|j: int| i < j < name.len() implies name[j] != '.' by {
                    if j < name.len() - 1 {
                        assert(name[j] == name.drop_last()[j]);
                    }
                }
            },
            None => {
                assert forall|j: int| 0 <= j < name.len() implies name[j] != '.' by {
                    if j < name.len() - 1 {
                        assert(name[j] == name.drop_last()[j]);
                    }
                }
            },
        }
    }
}

proof fn lemma_segment_start_after_folder(folder: Seq<char>, name: Seq<char>)
    requires
        folder.len() == 0 || folder.last() == '/',
        forall|i: int| 0 <= i < name.len() ==> name[i] != '/',
    ensures
        segment_start(folder + name) == folder.len(),
    decreases name.len(),
{
    if name.len() == 0 {
        assert(folder + name =~= folder);
    } else {
        assert((folder + name).drop_last() =~= folder + name.drop_last());
        assert((folder + name).last() == name[name.len() - 1]);
        lemma_segment_start_after_folder(folder, name.drop_last());
    }
}

/// A name is read the same in any folder: one path component, put after a folder and
/// its separator (or after nothing), is the name at the end of the path, and its
/// extension the path's.
pub proof fn law_a_folder_does_not_change_a_name(folder: Seq<char>, name: Seq<char>)
    requires
        folder.len() == 0 || folder.last() == '/',
        name.len() > 0,
        forall|i: int| 0 <= i < name.len() ==> name[i] != '/',
        name != seq!['.'],
        name != seq!['.', '.'],
    ensures
        file_name(folder + name) == Some(name),
        extension(folder + name) == extension(name),
{
    let p = folder + name;
    lemma_segment_start_after_folder(folder, name);
    lemma_segment_start_after_folder(seq![], name);
    assert(seq![] + name =~= name);
    assert(p.last() == name.last());
    assert(p.skip(folder.len() as int) =~= name);
    assert(name.skip(0) =~= name);
}

/// The name at the end of `p`.
pub fn file_name_of(p: &[char]) -> (name: Option<Vec<char>>)
    ensures
        match name {
            Some(n) => file_name(p@) == Some(n@),
            None => file_name(p@) is None,
        },
{
    let mut end: usize = p.len();
    assert(p@.take(p.len() as int) =~= p@);
    loop
        invariant
            end <= p.len(),
            file_name(p@) == file_name(p@.take(end as int)),
        decreases end,
    {
        let ghost q = p@.take(end as int);
        if end == 0 {
            return None;
        }
        if p[end - 1] == '/' {
            assert(q.drop_last() =~= p@.take(end - 1));
            end = end - 1;
        } else {
            let mut start = end;
            while start > 0 && p[start - 1] != '/'
                invariant
                    start <= end <= p.len(),
                    segment_start(q) == segment_start(p@.take(start as int)),
                decreases start,
            {
                assert(p@.take(start as int).drop_last() =~= p@.take(start - 1));
                start = start - 1;
            }
            proof {
                lemma_segment_start(q);
            }
            let segment = slice_chars(p, start, end);
            assert(segment@ =~= q.skip(start as int));
            if segment.len() == 1 && segment[0] == '.' {
                assert(segment@ =~= seq!['.']);
                assert(q.take(start as int) =~= p@.take(start as int));
                end = start;
            } else if segment.len() == 2 && segment[0] == '.' && segment[1] == '.' {
                assert(segment@ =~= seq!['.', '.']);
                return None;
            } else {
                proof {
                    if segment@ == seq!['.'] {
                        assert(segment@.len() == 1);
                    }
                    if segment@ == seq!['.', '.'] {
                        assert(segment@.len() == 2);
                    }
                }
                return Some(segment);
            }
        }
    }
}

/// The extension of the name `name`.
pub fn name_extension_of(name: &[char]) -> (ext: Option<Vec<char>>)
    ensures
        match ext {
            Some(e) => name_extension(name@) == Some(e@),
            None => name_extension(name@) is None,
        },
{
    let mut i: usize = name.len();
    assert(name@.take(name.len() as int) =~= name@);
    while i > 0 && name[i - 1] != '.'
        invariant
            i <= name.len(),
            last_dot(name@) == last_dot(name@.take(i as int)),
        decreases i,
    {
        assert(name@.take(i as int).drop_last() =~= name@.take(i - 1));
        i = i - 1;
    }
    if i <= 1 {
        proof {
            if i == 0 {
                assert(name@.take(0) =~= Seq::<char>::empty());
            }
        }
        return None;
    }
    Some(slice_chars(name, i, name.len()))
}

/// The extension of the file `p` names.
pub fn extension_of(p: &[char]) -> (ext: Option<Vec<char>>)
    ensures
        match ext {
            Some(e) => extension(p@) == Some(e@),
            None => extension(p@) is None,
        },
{
    match file_name_of(p) {
        Some(name) => name_extension_of(&name),
        None => None,
    }
}

// ---------------------------------------------------------------------------------
// Containment.

/// The segments of `s` between slashes, in order — empty ones included.
pub open spec fn segments(s: Seq<char>) -> Seq<Seq<char>>
    decreases s.len(),
{
    match first_slash(s) {
        Some(i) => if 0 <= i < s.len() {
            seq![s.take(i)] + segments(s.skip(i + 1))
        } else {
            seq![s]
        },
        None => seq![s],
    }
}

/// Where the first `/` of `s` is.
pub open spec fn first_slash(s: Seq<char>) -> Option<int>
    decreases s.len(),
{
    if s.len() == 0 {
        None
    } else if s[0] == '/' {
        Some(0)
    } else {
        match first_slash(s.drop_first()) {
            Some(i) => Some(i + 1),
            None => None,
        }
    }
}

/// The names a request path walks down through, as `Path::components` reads it — empty
/// and `.` components are nothing — or `None` when any of them climbs with `..`.
pub open spec fn walked(parts: Seq<Seq<char>>) -> Option<Seq<Seq<char>>>
    decreases parts.len(),
{
    if parts.len() == 0 {
        Some(seq![])
    } else {
        let part = parts[0];
        match walked(parts.drop_first()) {
            None => None,
            Some(rest) => if part == seq!['.', '.'] {
                None
            } else if part.len() == 0 || part == seq!['.'] {
                Some(rest)
            } else {
                Some(seq![part] + rest)
            },
        }
    }
}

/// `base` with `name` pushed onto it, as `PathBuf::push` does with a relative name.
pub open spec fn pushed(base: Seq<char>, name: Seq<char>) -> Seq<char> {
    if base.len() == 0 || base.last() == '/' {
        base + name
    } else {
        base + seq!['/'] + name
    }
}

/// `base` with every one of `names` pushed onto it in turn.
pub open spec fn pushed_all(base: Seq<char>, names: Seq<Seq<char>>) -> Seq<char>
    decreases names.len(),
{
    if names.len() == 0 {
        base
    } else {
        pushed_all(pushed(base, names[0]), names.drop_first())
    }
}

/// The file `request` names under `root`, or none when it names something outside it
/// by climbing with `..` — however it is spelled.
pub open spec fn under(root: Seq<char>, request: Seq<char>) -> Option<Seq<char>> {
    match walked(segments(request)) {
        Some(names) => Some(pushed_all(root, names)),
        None => None,
    }
}

proof fn lemma_first_slash(s: Seq<char>)
    ensures
        match first_slash(s) {
            Some(i) => 0 <= i < s.len() && s[i] == '/' && forall|j: int| 0 <= j < i ==> s[j] != '/',
            None => forall|j: int| 0 <= j < s.len() ==> s[j] != '/',
        },
    decreases s.len(),
{
    if s.len() > 0 && s[0] != '/' {
        lemma_first_slash(s.drop_first());
        match first_slash(s.drop_first()) {
            Some(i) => {
                assert forall|j: int| 0 <= j < i + 1 implies s[j] != '/' by {
                    if j > 0 {
                        assert(s[j] == s.drop_first()[j - 1]);
                    }
                }
            },
            None => {
                assert forall|j: int| 0 <= j < s.len() implies s[j] != '/' by {
                    if j > 0 {
                        assert(s[j] == s.drop_first()[j - 1]);
                    }
                }
            },
        }
    }
}

proof fn lemma_first_slash_at(s: Seq<char>, i: int)
    requires
        0 <= i < s.len(),
        s[i] == '/',
        forall|j: int| 0 <= j < i ==> s[j] != '/',
    ensures
        first_slash(s) == Some(i),
{
    lemma_first_slash(s);
    match first_slash(s) {
        Some(k) => {
            if k < i {
            } else if k > i {
            }
        },
        None => {},
    }
}

proof fn lemma_no_slash(s: Seq<char>)
    requires
        forall|j: int| 0 <= j < s.len() ==> s[j] != '/',
    ensures
        first_slash(s) is None,
{
    lemma_first_slash(s);
    match first_slash(s) {
        Some(k) => {},
        None => {},
    }
}

/// The segments of `request`, each cut out in turn.
pub(crate) fn segments_of(request: &[char]) -> (parts: Vec<Vec<char>>)
    ensures
        parts@.len() == segments(request@).len(),
        forall|i: int| 0 <= i < parts@.len() ==> (#[trigger] parts@[i])@ == segments(request@)[i],
{
    let mut parts: Vec<Vec<char>> = Vec::new();
    let mut start: usize = 0;
    assert(request@.skip(0) =~= request@);
    assert(Seq::new(parts@.len(), |i: int| parts@[i]@) + segments(request@) =~= segments(request@));
    loop
        invariant
            start <= request.len(),
            ({
                let done = Seq::new(parts@.len(), |i: int| parts@[i]@);
                done + segments(request@.skip(start as int)) == segments(request@)
            }),
        decreases request.len() - start,
    {
        let ghost rest = request@.skip(start as int);
        let ghost done_before = Seq::new(parts@.len(), |i: int| parts@[i]@);
        let mut end = start;
        while end < request.len() && request[end] != '/'
            invariant
                start <= end <= request.len(),
                forall|j: int| start <= j < end ==> request@[j] != '/',
            decreases request.len() - end,
        {
            end = end + 1;
        }
        let part = slice_chars(request, start, end);
        assert(part@ =~= rest.take(end - start));
        if end < request.len() {
            proof {
                lemma_first_slash_at(rest, end - start);
                assert(rest.skip(end - start + 1) =~= request@.skip(end + 1));
            }
            parts.push(part);
            assert(Seq::new(parts@.len(), |i: int| parts@[i]@) =~= done_before.push(part@));
            assert(segments(rest) =~= seq![part@] + segments(request@.skip(end + 1)));
            start = end + 1;
        } else {
            proof {
                lemma_no_slash(rest);
                assert(rest.take(end - start) =~= rest);
            }
            parts.push(part);
            assert(Seq::new(parts@.len(), |i: int| parts@[i]@) =~= done_before.push(part@));
            assert(segments(rest) =~= seq![part@]);
            let ghost done = Seq::new(parts@.len(), |i: int| parts@[i]@);
            assert(done =~= segments(request@));
            return parts;
        }
    }
}

/// The file `request` names under `root`, or `None` when it names something outside
/// it by climbing with `..` — however the climb is spelled, and before any filesystem
/// is consulted.
///
/// This is the half of the containment rule that reads the request; the other half,
/// that the file it lands on does not lead out of `root` through a symlink, asks the
/// filesystem and is the caller's. A returned path is inside the directory; it is not a
/// promise that anything is there.
pub fn path_under(root: &str, request: &str) -> (target: Option<String>)
    ensures
        match target {
            Some(t) => under(root@, request@) == Some(t@),
            None => under(root@, request@) is None,
        },
{
    let wanted = crate::text::chars_of(request);
    let parts = segments_of(&wanted);
    let ghost all = segments(wanted@);
    // Whether anything climbs is decided first, from the end backwards, exactly as
    // `walked` reads it.
    let mut i = parts.len();
    while i > 0
        invariant
            i <= parts@.len(),
            all == segments(wanted@),
            wanted@ == request@,
            parts@.len() == all.len(),
            forall|k: int| 0 <= k < parts@.len() ==> (#[trigger] parts@[k])@ == all[k],
            walked(all.skip(i as int)) is Some,
        decreases i,
    {
        i = i - 1;
        let part = &parts[i];
        assert(parts@[i as int]@ == all[i as int]);
        assert(all.skip(i as int).drop_first() =~= all.skip(i + 1));
        assert(all.skip(i as int)[0] == part@);
        if part.len() == 2 && part[0] == '.' && part[1] == '.' {
            assert(part@ =~= seq!['.', '.']);
            assert(all.skip(0) =~= all);
            assert(all[i as int] == seq!['.', '.']);
            proof {
                lemma_walked_none_spreads(all, i as int);
            }
            assert(walked(all) is None);
            assert(under(root@, request@) is None);
            return None;
        }
    }
    assert(all.skip(0) =~= all);
    let mut target = crate::text::chars_of(root);
    let mut k: usize = 0;
    while k < parts.len()
        invariant
            k <= parts@.len(),
            parts@.len() == all.len(),
            forall|j: int| 0 <= j < parts@.len() ==> (#[trigger] parts@[j])@ == all[j],
            walked(all) is Some,
            pushed_all(target@, walked(all.skip(k as int)).unwrap()) == pushed_all(
                root@,
                walked(all).unwrap(),
            ),
        decreases parts.len() - k,
    {
        let part = &parts[k];
        let ghost tail = all.skip(k as int);
        assert(tail[0] == part@);
        assert(tail.drop_first() =~= all.skip(k + 1));
        proof {
            lemma_walked_some_tail(all, k as int);
        }
        let is_dot = part.len() == 1 && part[0] == '.';
        if part.len() == 0 || is_dot {
            proof {
                if is_dot {
                    assert(part@ =~= seq!['.']);
                }
                if part@.len() == 0 {
                    assert(part@ =~= Seq::<char>::empty());
                }
            }
        } else {
            proof {
                if part@ == seq!['.'] {
                    assert(part@.len() == 1);
                }
                if part@ == seq!['.', '.'] {
                    assert(part@.len() == 2);
                }
            }
            let ghost before = target@;
            if target.len() > 0 && target[target.len() - 1] != '/' {
                target.push('/');
            }
            extend_chars(&mut target, part);
            assert(target@ =~= pushed(before, part@));
            let ghost names = walked(all.skip(k + 1)).unwrap();
            assert(walked(tail).unwrap() =~= seq![part@] + names);
            assert((seq![part@] + names).drop_first() =~= names);
        }
        k = k + 1;
    }
    assert(all.skip(parts.len() as int) =~= Seq::<Seq<char>>::empty());
    Some(crate::text::string_of(&target))
}

proof fn lemma_walked_some_tail(parts: Seq<Seq<char>>, k: int)
    requires
        0 <= k < parts.len(),
        walked(parts) is Some,
    ensures
        walked(parts.skip(k)) is Some,
        walked(parts.skip(k + 1)) is Some,
    decreases k,
{
    assert(parts.skip(0) =~= parts);
    if k > 0 {
        assert(parts.drop_first().skip(k - 1) =~= parts.skip(k));
        assert(parts.drop_first().skip(k) =~= parts.skip(k + 1));
        lemma_walked_some_tail(parts.drop_first(), k - 1);
    } else {
        assert(parts.skip(0).drop_first() =~= parts.skip(1));
    }
}

proof fn lemma_walked_none_spreads(parts: Seq<Seq<char>>, i: int)
    requires
        0 <= i < parts.len(),
        parts[i] == seq!['.', '.'],
    ensures
        walked(parts) is None,
    decreases i,
{
    if i > 0 {
        assert(parts.drop_first()[i - 1] == parts[i]);
        lemma_walked_none_spreads(parts.drop_first(), i - 1);
    }
}

/// What containment promises: a request that names a `..` anywhere reaches nothing,
/// and one that does not lands at `root` followed by the names it walks — so nothing
/// it names lies above `root`.
pub proof fn law_a_climbing_request_reaches_nothing(root: Seq<char>, request: Seq<char>, i: int)
    requires
        0 <= i < segments(request).len(),
        segments(request)[i] == seq!['.', '.'],
    ensures
        under(root, request) is None,
{
    lemma_walked_none_spreads(segments(request), i);
}

/// A name pushed onto a root keeps the root as the start of the result.
pub proof fn law_what_is_reached_starts_with_the_root(root: Seq<char>, names: Seq<Seq<char>>)
    ensures
        pushed_all(root, names).len() >= root.len(),
        pushed_all(root, names).take(root.len() as int) == root,
    decreases names.len(),
{
    if names.len() > 0 {
        let next = pushed(root, names[0]);
        assert(next.take(root.len() as int) =~= root);
        law_what_is_reached_starts_with_the_root(next, names.drop_first());
        assert(pushed_all(root, names).take(next.len() as int).take(root.len() as int) =~= pushed_all(
            root,
            names,
        ).take(root.len() as int));
    }
}

} // verus!
