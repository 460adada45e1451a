//! What a document window decides on its own: which surface it shows, where the reader
//! has been in it, what a press on a task box does to the source, and how the title
//! bar names the document and its folder.
use vstd::prelude::*;
use crate::paths::{file_name, file_name_of};
use crate::text::{chars_of, extend_chars, occurs_at, string_of, strip_prefix};

verus! {

/// Which of its two surfaces a window is showing.
#[derive(Clone, Copy, Debug, PartialEq, Eq, Structural)]
pub enum Mode {
    /// The rendered document. Where opening a file lands.
    Read,
    /// The source. Where a bare launch and `Ctrl+N` land.
    Edit,
}

impl Mode {
    /// The surface the mode switch goes to from this one.
    pub fn other(self) -> (m: Mode)
        ensures
            m != self,
            m.other_spec() == self,
    {
        match self {
            Mode::Read => Mode::Edit,
            Mode::Edit => Mode::Read,
        }
    }

    /// The other surface, as the rules speak of it.
    pub open spec fn other_spec(self) -> Mode {
        match self {
            Mode::Read => Mode::Edit,
            Mode::Edit => Mode::Read,
        }
    }
}

/// The window actions the header bar and the keyboard share, by the full names widgets
/// and shortcuts use.
pub const BACK: &'static str = "win.back";
pub const FORWARD: &'static str = "win.forward";
pub const MODE: &'static str = "win.mode";
pub const OUTLINE: &'static str = "win.outline";
pub const SAVE: &'static str = "win.save";
pub const SAVE_AS: &'static str = "win.save-as";
pub const UNDO: &'static str = "win.undo";
pub const REDO: &'static str = "win.redo";
pub const PRINT: &'static str = "win.print";
pub const EXPORT: &'static str = "win.export";
/// Which engine this window reads its document with.
pub const ENGINE: &'static str = "win.engine";

/// An action's bare name, as a window registers it, from the full one a widget uses.
pub open spec fn bare_name(action: Seq<char>) -> Seq<char> {
    if occurs_at(action, "win."@, 0) {
        action.skip(4)
    } else {
        action
    }
}

/// An action's bare name, as a window registers it, from the full one a widget uses.
pub fn bare(action: &str) -> (name: String)
    ensures
        name@ == bare_name(action@),
{
    proof {
        reveal_strlit("win.");
    }
    let full = chars_of(action);
    match strip_prefix(&full, &chars_of("win.")) {
        Some(rest) => string_of(&rest),
        None => action.to_owned(),
    }
}

/// One place the reader has been: a document, and the section of it they arrived at.
pub struct Visit {
    pub file: String,
    pub fragment: String,
}

impl View for Visit {
    type V = (Seq<char>, Seq<char>);

    open spec fn view(&self) -> (Seq<char>, Seq<char>) {
        (self.file@, self.fragment@)
    }
}

impl Visit {
    /// The same place, as a value of its own.
    pub fn copied(&self) -> (v: Visit)
        ensures
            v@ == self@,
    {
        Visit { file: self.file.clone(), fragment: self.fragment.clone() }
    }
}

/// The places `v` holds, as the rules speak of them.
pub open spec fn visits(v: Seq<Visit>) -> Seq<(Seq<char>, Seq<char>)> {
    v.map_values(|x: Visit| x@)
}

/// Where the reader has been in one window, and where they are in it.
pub struct History {
    entries: Vec<Visit>,
    at: usize,
}

/// A window's history as the rules speak of it: the places, oldest first, and which of
/// them the window is showing.
pub struct Trail {
    pub entries: Seq<(Seq<char>, Seq<char>)>,
    pub at: nat,
}

/// Whether there is anywhere to go from `t`, forward or back.
pub open spec fn can_go(t: Trail, forward: bool) -> bool {
    if forward {
        t.at + 1 < t.entries.len()
    } else {
        t.entries.len() > 0 && t.at > 0
    }
}

/// Where one step leaves the reader: the same places, one further along them.
pub open spec fn gone(t: Trail, forward: bool) -> Trail {
    Trail {
        entries: t.entries,
        at: if forward {
            t.at + 1
        } else {
            (t.at - 1) as nat
        },
    }
}

/// What following a link to `visit` from `t` makes of it: everything up to where the
/// reader is, then the new place, and the reader on it.
pub open spec fn followed(t: Trail, visit: (Seq<char>, Seq<char>)) -> Trail {
    let kept = if t.entries.len() == 0 {
        0
    } else {
        t.at + 1
    };
    Trail { entries: t.entries.take(kept as int).push(visit), at: kept as nat }
}

/// What being given a document makes of any history: that document alone.
pub open spec fn restarted(visit: (Seq<char>, Seq<char>)) -> Trail {
    Trail { entries: seq![visit], at: 0 }
}

/// A history whose place is one of its entries, or an empty one.
pub open spec fn sound(t: Trail) -> bool {
    (t.entries.len() == 0 && t.at == 0) || t.at < t.entries.len()
}

impl History {
    #[verifier::type_invariant]
    spec fn points_into_its_entries(&self) -> bool {
        (self.entries.len() == 0 && self.at == 0) || self.at < self.entries.len()
    }

    /// The places, oldest first, and which of them the window is showing.
    pub closed spec fn trail(&self) -> Trail {
        Trail { entries: visits(self.entries@), at: self.at as nat }
    }

    /// A window that has been nowhere yet.
    pub fn new() -> (h: History)
        ensures
            h.trail() == (Trail { entries: Seq::empty(), at: 0 }),
    {
        let h = History { entries: Vec::new(), at: 0 };
        assert(visits(h.entries@) =~= Seq::empty());
        h
    }

    /// Starts again at `visit`: the window has been given a document rather than having
    /// followed a link to one.
    pub fn restart(&mut self, visit: Visit)
        ensures
            final(self).trail() == restarted(visit@),
    {
        let ghost v = visit@;
        let mut entries = Vec::new();
        entries.push(visit);
        *self = History { entries, at: 0 };
        assert(visits(self.entries@) =~= seq![v]);
    }

    /// Records a link followed from where the reader is. Anything ahead of them is a
    /// branch they have left, and goes.
    pub fn follow(&mut self, visit: Visit)
        requires
            old(self).trail().entries.len() < usize::MAX,
        ensures
            final(self).trail() == followed(old(self).trail(), visit@),
    {
        proof {
            use_type_invariant(&*self);
        }
        let ghost before = self.entries@;
        let ghost v = visit@;
        let keep = if self.entries.len() == 0 {
            0
        } else {
            self.at + 1
        };
        let mut entries = Vec::new();
        self.at = 0;
        std::mem::swap(&mut entries, &mut self.entries);
        entries.truncate(keep);
        entries.push(visit);
        let at = entries.len() - 1;
        *self = History { entries, at };
        assert(visits(self.entries@) =~= visits(before).take(keep as int).push(v));
    }

    /// Moves back or forward, answering with where that is — or `None`, and no move at
    /// all, when there is nowhere that way.
    pub fn step(&mut self, forward: bool) -> (went: Option<Visit>)
        ensures
            went is Some <==> can_go(old(self).trail(), forward),
            can_go(old(self).trail(), forward) ==> final(self).trail() == gone(old(self).trail(), forward),
            !can_go(old(self).trail(), forward) ==> final(self).trail() == old(self).trail(),
            went matches Some(v) ==> v@ == final(self).trail().entries[final(self).trail().at as int],
    {
        proof {
            use_type_invariant(&*self);
        }
        let next = if forward {
            if self.at + 1 < self.entries.len() {
                self.at + 1
            } else {
                return None;
            }
        } else {
            if self.entries.len() > 0 && self.at > 0 {
                self.at - 1
            } else {
                return None;
            }
        };
        self.at = next;
        Some(self.entries[next].copied())
    }

    /// Whether there is anywhere to go that way — what keeps the two header-bar buttons
    /// honest.
    pub fn can_step(&self, forward: bool) -> (yes: bool)
        ensures
            yes == can_go(self.trail(), forward),
    {
        proof {
            use_type_invariant(self);
        }
        if forward {
            self.at + 1 < self.entries.len()
        } else {
            self.entries.len() > 0 && self.at > 0
        }
    }

    /// How many places the window has been at.
    pub fn len(&self) -> (n: usize)
        ensures
            n == self.trail().entries.len(),
    {
        self.entries.len()
    }

    /// The files this window has been at, oldest first.
    pub fn files(&self) -> (names: Vec<String>)
        ensures
            names@.len() == self.trail().entries.len(),
            forall|i: int| 0 <= i < names@.len() ==> #[trigger] names@[i]@ == self.trail().entries[i].0,
    {
        let mut names: Vec<String> = Vec::new();
        let mut i: usize = 0;
        while i < self.entries.len()
            invariant
                i <= self.entries.len(),
                names@.len() == i,
                forall|j: int| 0 <= j < i ==> #[trigger] names@[j]@ == visits(self.entries@)[j].0,
            decreases self.entries.len() - i,
        {
            names.push(self.entries[i].file.clone());
            i = i + 1;
        }
        names
    }
}

/// Going back and then forward again lands on the place the reader left, and changes
/// nothing about where they have been; and the same the other way round.
pub proof fn law_a_step_is_undone_by_the_step_back(t: Trail, forward: bool)
    requires
        sound(t),
        can_go(t, forward),
    ensures
        sound(gone(t, forward)),
        can_go(gone(t, forward), !forward),
        gone(gone(t, forward), !forward) == t,
{
}

/// Following a link leaves the reader on the newest place, with nowhere forward to go,
/// everything behind them kept, and somewhere back to go exactly when there was
/// somewhere to come from.
pub proof fn law_following_leaves_the_branch_behind(t: Trail, visit: (Seq<char>, Seq<char>))
    requires
        sound(t),
    ensures
        sound(followed(t, visit)),
        !can_go(followed(t, visit), true),
        can_go(followed(t, visit), false) <==> t.entries.len() > 0,
        followed(t, visit).entries[followed(t, visit).at as int] == visit,
        forall|i: int| 0 <= i <= t.at && i < t.entries.len() ==> followed(t, visit).entries[i] == t.entries[i],
{
}

/// Being given a document starts the window over: there is nowhere to go but the
/// document itself, whatever the reader had done before.
pub proof fn law_a_new_document_starts_the_window_over(visit: (Seq<char>, Seq<char>))
    ensures
        sound(restarted(visit)),
        !can_go(restarted(visit), true),
        !can_go(restarted(visit), false),
{
}

/// What a task box at byte `at` of `text` becomes when the reader presses it, as the
/// rules speak of it.
pub open spec fn tick(text: Seq<u8>, at: int) -> Option<char> {
    if at <= 0 || at + 1 >= text.len() || text[at - 1] != 0x5bu8 || text[at + 1] != 0x5du8 {
        None
    } else if text[at] == 0x20u8 {
        Some('x')
    } else if text[at] == 0x78u8 || text[at] == 0x58u8 {
        Some(' ')
    } else {
        None
    }
}

/// What a task list marker at `at` should become when the reader presses it, or `None`
/// when `at` is not a marker at all any more.
///
/// The three bytes have to spell a checkbox — `[`, its state, `]` — because the only
/// thing that says the source has not moved under the page is what the source says.
pub fn ticked(text: &str, at: usize) -> (state: Option<char>)
    ensures
        state == tick(vstd::utf8::encode_utf8(text@), at as int),
{
    let bytes = text.as_bytes();
    if at == 0 || at >= bytes.len() || at + 1 >= bytes.len() {
        return None;
    }
    if bytes[at - 1] != 0x5bu8 || bytes[at + 1] != 0x5du8 {
        return None;
    }
    let b = bytes[at];
    if b == 0x20u8 {
        Some('x')
    } else if b == 0x78u8 || b == 0x58u8 {
        Some(' ')
    } else {
        None
    }
}

/// A press only ever turns a box the other way round: an empty box becomes ticked, a
/// ticked one (either case) becomes empty, and anything that is not a box is left
/// alone.
pub proof fn law_a_press_only_turns_a_box_over(text: Seq<u8>, at: int)
    ensures
        tick(text, at) is Some ==> {
            &&& 0 < at < text.len() - 1
            &&& text[at - 1] == 0x5bu8
            &&& text[at + 1] == 0x5du8
            &&& (tick(text, at) == Some('x') <==> text[at] == 0x20u8)
            &&& (tick(text, at) == Some(' ') <==> (text[at] == 0x78u8 || text[at] == 0x58u8))
        },
{
}

/// How the title bar names a file: the name at the end of its path, or the whole path
/// when it ends in none.
pub open spec fn shown_name(file: Seq<char>) -> Seq<char> {
    match file_name(file) {
        Some(name) => name,
        None => file,
    }
}

/// How the title bar names a file.
pub fn file_name_shown(file: &str) -> (name: String)
    ensures
        name@ == shown_name(file@),
{
    match file_name_of(&chars_of(file)) {
        Some(name) => string_of(&name),
        None => file.to_owned(),
    }
}

/// A folder as the reader thinks of it: their home is `~`, and a folder under it is
/// spelled from there.
pub open spec fn spoken_folder(folder: Seq<char>, home: Option<Seq<char>>) -> Seq<char> {
    match home {
        Some(h) => if folder == h {
            seq!['~']
        } else if occurs_at(folder, h + seq!['/'], 0) {
            seq!['~', '/'] + folder.skip(h.len() + 1int)
        } else {
            folder
        },
        None => folder,
    }
}

/// The document's folder as the title bar says it, with the reader's home shortened.
/// `folder` is the directory the document is in, and `home` the reader's home
/// directory when it can be spelled at all.
pub fn folder_of(folder: &str, home: Option<&str>) -> (said: String)
    ensures
        said@ == spoken_folder(folder@, match home {
            Some(h) => Some(h@),
            None => None,
        }),
{
    proof {
        reveal_strlit("~");
    }
    match home {
        Some(h) => {
            let f = chars_of(folder);
            let hc = chars_of(h);
            if crate::text::same_chars(&f, &hc) {
                return "~".to_owned();
            }
            let mut with_slash = hc.clone();
            let slash = ['/'];
            extend_chars(&mut with_slash, &slash);
            assert(with_slash@ =~= h@ + seq!['/']);
            match strip_prefix(&f, &with_slash) {
                Some(rest) => {
                    proof {
                        assert(with_slash@.len() == h@.len() + 1);
                    }
                    let mut said = Vec::new();
                    said.push('~');
                    said.push('/');
                    extend_chars(&mut said, &rest);
                    assert(said@ =~= seq!['~', '/'] + folder@.skip(h@.len() + 1int));
                    string_of(&said)
                },
                None => folder.to_owned(),
            }
        },
        None => folder.to_owned(),
    }
}

/// The remote images a window has asked for and not yet heard back about, so that
/// pressing "load all" twice is one fetch per image rather than two.
pub struct Fetching {
    urls: Vec<String>,
}

impl Fetching {
    /// The images in flight, as the rules speak of them.
    pub closed spec fn in_flight(&self) -> Seq<Seq<char>> {
        crate::text::texts(self.urls@)
    }

    /// A window fetching nothing.
    pub fn new() -> (f: Fetching)
        ensures
            f.in_flight() == Seq::<Seq<char>>::empty(),
    {
        let f = Fetching { urls: Vec::new() };
        assert(f.in_flight() =~= Seq::<Seq<char>>::empty());
        f
    }

    /// Whether `source` is to be fetched: not when the page already has it
    /// (`already_loaded`), and not while a fetch of it is in flight.
    pub fn wanted(&self, source: &str, already_loaded: bool) -> (go: bool)
        ensures
            go == (!already_loaded && !self.in_flight().contains(source@)),
    {
        if already_loaded {
            return false;
        }
        !crate::text::holds(self.urls.as_slice(), source)
    }

    /// Notes that a fetch of `source` has started.
    pub fn start(&mut self, source: &str)
        ensures
            final(self).in_flight() == old(self).in_flight().push(source@),
    {
        let ghost before = self.in_flight();
        self.urls.push(source.to_owned());
        assert(self.in_flight() =~= before.push(source@));
    }

    /// Notes that the fetch of `source` has come back, however it ended.
    pub fn finish(&mut self, source: &str)
        ensures
            final(self).in_flight() == crate::text::dropped(old(self).in_flight(), source@),
    {
        self.urls = crate::text::dropping(self.urls.as_slice(), source);
    }

    /// Forgets every fetch in flight: the window has moved on to another document, and
    /// what comes back for this one is nobody's.
    pub fn clear(&mut self)
        ensures
            final(self).in_flight() == Seq::<Seq<char>>::empty(),
    {
        self.urls = Vec::new();
        assert(self.in_flight() =~= Seq::<Seq<char>>::empty());
    }
}

/// An image is never fetched twice at once: once its fetch has started it is not wanted
/// again while that fetch is in flight, and once it has come back it is wanted again
/// (unless the page has it), whatever else is in flight.
pub proof fn law_an_image_is_fetched_once_at_a_time(in_flight: Seq<Seq<char>>, source: Seq<char>)
    ensures
        in_flight.push(source).contains(source),
        !crate::text::dropped(in_flight.push(source), source).contains(source),
{
    assert(in_flight.push(source)[in_flight.len() as int] == source);
    crate::text::lemma_dropped(in_flight.push(source), source, source);
}

/// Whether an automatic save writes the document out: only when the reader asked for
/// automatic saves, there is something unsaved, the document has a file to go to
/// (asking where is a question, and an automatic save must not ask one), and it is not
/// waiting on the reader to choose between their version and the one on disk.
pub fn worth_autosaving(enabled: bool, modified: bool, needs_a_name: bool, conflicted: bool) -> (write: bool)
    ensures
        write == (enabled && modified && !needs_a_name && !conflicted),
{
    enabled && modified && !needs_a_name && !conflicted
}

/// The window's name for its document: what it is called, marked with a bullet while
/// there is work in it that is not on disk.
pub open spec fn title_text(name: Seq<char>, modified: bool) -> Seq<char> {
    if modified {
        "\u{2022} "@ + name
    } else {
        name
    }
}

/// The window's name for its document.
pub fn title_for(name: &str, modified: bool) -> (title: String)
    ensures
        title@ == title_text(name@, modified),
{
    if modified {
        let mut t = chars_of("\u{2022} ");
        extend_chars(&mut t, &chars_of(name));
        string_of(&t)
    } else {
        name.to_owned()
    }
}

} // verus!
