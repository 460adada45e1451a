//! The reader's settings as the running application decides on them: the keys, named
//! once; which plugins are switched off; and what the stored numbers and words mean.
//!
//! The store itself belongs to the desktop. What is decided here is everything the
//! values read out of it are turned into, so that the same value always means the same
//! thing.
use vstd::prelude::*;
use crate::text::{dropped, dropping, holds, lemma_dropped, same_text, texts};

verus! {

/// Every setting axiomd has, named once.
#[derive(Clone, Copy, Debug, PartialEq, Eq, Structural)]
pub enum Key {
    /// Follow the desktop's colour scheme, or override it.
    Theme,
    /// Whether a document's text is held to a measure at all.
    ReadingWidthLimited,
    /// That measure, in rem.
    ReadingWidth,
    /// Whether a document's headings are listed beside it.
    Outline,
    /// How wide they are listed, in pixels. Window state, not a preference.
    SidebarWidth,
    /// How wide a window opens, in pixels. Window state.
    WindowWidth,
    /// How tall it opens. Window state.
    WindowHeight,
    /// Whether it opens filling the screen. Window state.
    WindowMaximized,
    /// Whether edits are written back without being asked for.
    Autosave,
    /// How long after the last edit that happens, in seconds.
    AutosaveDelay,
    /// Whether the editor marks misspelled words.
    Spellcheck,
    /// The engine documents are read with unless a window says otherwise.
    Engine,
    /// The rendering plugins the reader has switched off, by id.
    DisabledPlugins,
}

/// The name a setting has in the schema.
pub open spec fn key_name(key: Key) -> Seq<char> {
    match key {
        Key::Theme => "theme"@,
        Key::ReadingWidthLimited => "reading-width-limited"@,
        Key::ReadingWidth => "reading-width"@,
        Key::Outline => "outline"@,
        Key::SidebarWidth => "sidebar-width"@,
        Key::WindowWidth => "window-width"@,
        Key::WindowHeight => "window-height"@,
        Key::WindowMaximized => "is-maximized"@,
        Key::Autosave => "autosave"@,
        Key::AutosaveDelay => "autosave-delay"@,
        Key::Spellcheck => "spellcheck"@,
        Key::Engine => "engine"@,
        Key::DisabledPlugins => "disabled-plugins"@,
    }
}

impl Key {
    /// The name this setting has in the schema.
    pub fn name(self) -> (name: &'static str)
        ensures
            name@ == key_name(self),
    {
        match self {
            Key::Theme => "theme",
            Key::ReadingWidthLimited => "reading-width-limited",
            Key::ReadingWidth => "reading-width",
            Key::Outline => "outline",
            Key::SidebarWidth => "sidebar-width",
            Key::WindowWidth => "window-width",
            Key::WindowHeight => "window-height",
            Key::WindowMaximized => "is-maximized",
            Key::Autosave => "autosave",
            Key::AutosaveDelay => "autosave-delay",
            Key::Spellcheck => "spellcheck",
            Key::Engine => "engine",
            Key::DisabledPlugins => "disabled-plugins",
        }
    }

    /// Every key, in the order the schema lists them.
    pub fn all() -> (keys: Vec<Key>)
        ensures
            keys@ == seq![
                Key::Theme,
                Key::ReadingWidthLimited,
                Key::ReadingWidth,
                Key::Outline,
                Key::SidebarWidth,
                Key::WindowWidth,
                Key::WindowHeight,
                Key::WindowMaximized,
                Key::Autosave,
                Key::AutosaveDelay,
                Key::Spellcheck,
                Key::Engine,
                Key::DisabledPlugins,
            ],
    {
        let keys = vec![
            Key::Theme,
            Key::ReadingWidthLimited,
            Key::ReadingWidth,
            Key::Outline,
            Key::SidebarWidth,
            Key::WindowWidth,
            Key::WindowHeight,
            Key::WindowMaximized,
            Key::Autosave,
            Key::AutosaveDelay,
            Key::Spellcheck,
            Key::Engine,
            Key::DisabledPlugins,
        ];
        assert(keys@ =~= seq![
            Key::Theme,
            Key::ReadingWidthLimited,
            Key::ReadingWidth,
            Key::Outline,
            Key::SidebarWidth,
            Key::WindowWidth,
            Key::WindowHeight,
            Key::WindowMaximized,
            Key::Autosave,
            Key::AutosaveDelay,
            Key::Spellcheck,
            Key::Engine,
            Key::DisabledPlugins,
        ]);
        keys
    }
}

/// No two settings share a name, so a key is never read in place of another.
pub proof fn law_every_setting_has_a_name_of_its_own(a: Key, b: Key)
    requires
        a != b,
    ensures
        key_name(a) != key_name(b),
{
    reveal_strlit("theme");
    reveal_strlit("reading-width-limited");
    reveal_strlit("reading-width");
    reveal_strlit("outline");
    reveal_strlit("sidebar-width");
    reveal_strlit("window-width");
    reveal_strlit("window-height");
    reveal_strlit("is-maximized");
    reveal_strlit("autosave");
    reveal_strlit("autosave-delay");
    reveal_strlit("spellcheck");
    reveal_strlit("engine");
    reveal_strlit("disabled-plugins");
    if key_name(a) == key_name(b) {
        assert(key_name(a).len() == key_name(b).len());
        assert(key_name(a)[0] == key_name(b)[0]);
        assert(key_name(a)[1] == key_name(b)[1]);
        assert(key_name(a)[key_name(a).len() - 1] == key_name(b)[key_name(b).len() - 1]);
        if key_name(a).len() > 9 {
            assert(key_name(a)[9] == key_name(b)[9]);
        }
    }
}

/// The colour scheme the application runs under.
#[derive(Clone, Copy, Debug, PartialEq, Eq, Structural)]
pub enum ColorScheme {
    /// The desktop's own.
    Default,
    ForceLight,
    ForceDark,
}

/// The colour scheme a stored theme means: the override the reader chose, and the
/// desktop's own for anything else — including anything unknown, because a document is
/// still readable under the desktop's scheme, which is the answer that can never be
/// wrong.
pub fn color_scheme(theme: &str) -> (scheme: ColorScheme)
    ensures
        scheme == (if theme@ == "light"@ {
            ColorScheme::ForceLight
        } else if theme@ == "dark"@ {
            ColorScheme::ForceDark
        } else {
            ColorScheme::Default
        }),
{
    if same_text(theme, "light") {
        ColorScheme::ForceLight
    } else if same_text(theme, "dark") {
        ColorScheme::ForceDark
    } else {
        ColorScheme::Default
    }
}

/// How long after the reader stops typing their work is written back, in seconds, or
/// `None` when they have asked axiomd not to write it for them. A stored delay below a
/// second is a second: "autosave in no time" is not a thing a caller should be able to
/// confuse with "autosave off".
pub fn autosave_after(enabled: bool, delay: i32) -> (seconds: Option<u64>)
    ensures
        seconds == (if enabled {
            Some((if delay < 1 {
                1
            } else {
                delay as int
            }) as u64)
        } else {
            None::<u64>
        }),
{
    if enabled {
        Some(if delay < 1 {
            1
        } else {
            delay as u64
        })
    } else {
        None
    }
}

/// The measure a document's text is held to, in rem, or `None` when the reader has
/// asked for documents that fill the window. A stored measure below one is one.
pub fn measure(limited: bool, width: i32) -> (rem: Option<u32>)
    ensures
        rem == (if limited {
            Some((if width < 1 {
                1
            } else {
                width as int
            }) as u32)
        } else {
            None::<u32>
        }),
{
    if limited {
        Some(if width < 1 {
            1
        } else {
            width as u32
        })
    } else {
        None
    }
}

/// Whether `id` is among the switched-off plugins.
pub open spec fn switched_off(disabled: Seq<Seq<char>>, id: Seq<char>) -> bool {
    disabled.contains(id)
}

/// What the switched-off list becomes when the reader switches `id` on or off: `None`
/// when it already says what they asked for, so nothing is written.
pub open spec fn switched(disabled: Seq<Seq<char>>, id: Seq<char>, enabled: bool) -> Option<
    Seq<Seq<char>>,
> {
    if switched_off(disabled, id) == !enabled {
        None
    } else if enabled {
        Some(dropped(disabled, id))
    } else {
        Some(disabled.push(id))
    }
}

/// Whether the reader has plugin `id` switched on.
pub fn plugin_enabled(disabled: &[String], id: &str) -> (on: bool)
    ensures
        on == !switched_off(texts(disabled@), id@),
{
    !holds(disabled, id)
}

/// Switches plugin `id` on or off in the switched-off list `disabled`, keeping every
/// other id the store holds — including one belonging to a plugin this build does not
/// have. Answers the list to write, or `None` when nothing changes.
pub fn with_plugin(disabled: &[String], id: &str, enabled: bool) -> (list: Option<Vec<String>>)
    ensures
        match list {
            Some(v) => switched(texts(disabled@), id@, enabled) == Some(texts(v@)),
            None => switched(texts(disabled@), id@, enabled) is None,
        },
{
    let already = holds(disabled, id);
    if already == !enabled {
        return None;
    }
    if enabled {
        return Some(dropping(disabled, id));
    }
    let ghost all = texts(disabled@);
    let mut kept: Vec<String> = Vec::new();
    let mut i: usize = 0;
    while i < disabled.len()
        invariant
            i <= disabled.len(),
            all == texts(disabled@),
            texts(kept@) == all.take(i as int),
        decreases disabled.len() - i,
    {
        let ghost before = texts(kept@);
        kept.push(disabled[i].clone());
        assert(texts(kept@) =~= before.push(all[i as int]));
        assert(all.take(i + 1) =~= all.take(i as int).push(all[i as int]));
        i = i + 1;
    }
    assert(all.take(i as int) =~= all);
    kept.push(id.to_owned());
    assert(texts(kept@) =~= all.push(id@));
    Some(kept)
}

/// Switching a plugin on or off does exactly that: afterwards it is on or off as asked,
/// and every other plugin is as it was.
pub proof fn law_switching_a_plugin_touches_that_plugin_only(
    disabled: Seq<Seq<char>>,
    id: Seq<char>,
    enabled: bool,
    other: Seq<char>,
)
    ensures
        ({
            let after = match switched(disabled, id, enabled) {
                Some(d) => d,
                None => disabled,
            };
            &&& switched_off(after, id) == !enabled
            &&& other != id ==> switched_off(after, other) == switched_off(disabled, other)
        }),
{
    lemma_dropped(disabled, id, id);
    lemma_dropped(disabled, id, other);
    if !enabled && switched(disabled, id, enabled) is Some {
        assert(disabled.push(id).last() == id);
        assert(disabled.push(id)[disabled.len() as int] == id);
        if other != id {
            if disabled.push(id).contains(other) {
                let k = choose|k: int| 0 <= k < disabled.push(id).len() && disabled.push(id)[k] == other;
                assert(disabled[k] == other);
            }
            if disabled.contains(other) {
                let k = choose|k: int| 0 <= k < disabled.len() && disabled[k] == other;
                assert(disabled.push(id)[k] == other);
            }
        }
    }
}

/// The bounds a numeric setting is offered within, which are the bounds its key
/// declares, or `None` for a setting that is not a number the reader types.
pub fn bounds(key: Key) -> (range: Option<(i32, i32)>)
    ensures
        range == (match key {
            Key::ReadingWidth => Some((20i32, 200i32)),
            Key::AutosaveDelay => Some((1i32, 60i32)),
            _ => None,
        }),
{
    match key {
        Key::ReadingWidth => Some((20, 200)),
        Key::AutosaveDelay => Some((1, 60)),
        _ => None,
    }
}

/// The three answers to "which colour scheme", as they are stored.
pub const THEMES: [&'static str; 3] = ["system", "light", "dark"];

/// Which of `values` the stored answer `stored` is: its first position, or the first
/// entry for an answer not among them.
pub fn chosen_position(values: &[String], stored: &str) -> (at: usize)
    ensures
        texts(values@).contains(stored@) ==> at < values.len() && texts(values@)[at as int] == stored@
            && forall|j: int| 0 <= j < at ==> texts(values@)[j] != stored@,
        !texts(values@).contains(stored@) ==> at == 0,
{
    let ghost all = texts(values@);
    let mut i: usize = 0;
    while i < values.len()
        invariant
            i <= values.len(),
            all == texts(values@),
            forall|j: int| 0 <= j < i ==> all[j] != stored@,
        decreases values.len() - i,
    {
        if same_text(values[i].as_str(), stored) {
            assert(all[i as int] == stored@);
            return i;
        }
        i = i + 1;
    }
    assert(!all.contains(stored@));
    0
}

/// What choosing entry `at` of `values` stores, or nothing for a position past them.
pub fn chosen_value(values: &[String], at: usize) -> (stored: Option<String>)
    ensures
        match stored {
            Some(v) => at < values.len() && v@ == texts(values@)[at as int],
            None => at >= values.len(),
        },
{
    if at < values.len() {
        Some(values[at].clone())
    } else {
        None
    }
}

} // verus!
