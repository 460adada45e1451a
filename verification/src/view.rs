//! The decisions of the surface a document is displayed on, and the one rule it keeps:
//! a document is loaded once.
//!
//! The first render of a document is a page load. Every render after it — the file
//! changed on disk, the buffer changed in the editor — is patched into the page already
//! there, because navigating the view again is a full-page reload: the window flashes,
//! images are fetched again and the reader loses their place. [`DocumentView::show`]
//! is the only place that decides which of the two happens, and it answers with what
//! the webview is to be told.
//!
//! Besides that the view keeps the state that belongs to the page rather than to the
//! file: the remote images of the document on screen, the ones the reader has asked
//! for, and the ones that did not arrive.
use vstd::prelude::*;
use crate::js::{as_js_object, js_object};
use crate::links::text_of;
use crate::text::{chars_of, extend_chars, same_text, string_of, texts};

verus! {

/// Whether `source` is among the images that have arrived.
pub open spec fn has_arrived(loaded: Seq<(Seq<char>, Seq<char>)>, source: Seq<char>) -> bool {
    exists|i: int| 0 <= i < loaded.len() && #[trigger] loaded[i].0 == source
}

/// The sources nobody has asked for yet, in document order.
pub open spec fn not_yet_loaded(sources: Seq<Seq<char>>, loaded: Seq<(Seq<char>, Seq<char>)>) -> Seq<
    Seq<char>,
>
    decreases sources.len(),
{
    if sources.len() == 0 {
        seq![]
    } else {
        let rest = not_yet_loaded(sources.drop_last(), loaded);
        if has_arrived(loaded, sources.last()) {
            rest
        } else {
            rest.push(sources.last())
        }
    }
}

/// `pairs` with every pair for `source` taken out.
pub open spec fn without(pairs: Seq<(Seq<char>, Seq<char>)>, source: Seq<char>) -> Seq<
    (Seq<char>, Seq<char>),
>
    decreases pairs.len(),
{
    if pairs.len() == 0 {
        seq![]
    } else {
        let rest = without(pairs.drop_last(), source);
        if pairs.last().0 == source {
            rest
        } else {
            rest.push(pairs.last())
        }
    }
}

/// The pairs of texts `v` holds, as the rules speak of them.
pub open spec fn pairs_of(v: Seq<(String, String)>) -> Seq<(Seq<char>, Seq<char>)> {
    v.map_values(|p: (String, String)| (p.0@, p.1@))
}

/// The remote images of one page as the rules speak of them.
pub struct Remote {
    pub sources: Seq<Seq<char>>,
    pub loaded: Seq<(Seq<char>, Seq<char>)>,
    pub failed: Seq<(Seq<char>, Seq<char>)>,
}

/// What `remote.js` is called with: the images that arrived, by source, with the URI
/// each is served at, and the ones that did not, with what to say beside them.
pub open spec fn remote_state_text(r: Remote) -> Seq<char> {
    "{loaded:"@ + js_object(r.loaded) + ",failed:"@ + js_object(r.failed) + seq!['}']
}

/// The remote images of one page, as the reader has left them.
pub struct RemoteImages {
    /// Every remote image in the document, in document order.
    sources: Vec<String>,
    /// Source URL to the `axiomd://` URI its bytes are served from.
    loaded: Vec<(String, String)>,
    /// Source URL to what to tell the reader beside its placeholder.
    failed: Vec<(String, String)>,
}

fn dropping(pairs: Vec<(String, String)>, source: &str) -> (kept: Vec<(String, String)>)
    ensures
        pairs_of(kept@) == without(pairs_of(pairs@), source@),
{
    let ghost all = pairs_of(pairs@);
    let mut kept: Vec<(String, String)> = Vec::new();
    let mut i: usize = 0;
    while i < pairs.len()
        invariant
            i <= pairs.len(),
            all == pairs_of(pairs@),
            pairs_of(kept@) == without(all.take(i as int), source@),
        decreases pairs.len() - i,
    {
        proof {
            assert(all.take(i + 1).drop_last() =~= all.take(i as int));
            assert(all.take(i + 1).last() == all[i as int]);
        }
        if !same_text(pairs[i].0.as_str(), source) {
            kept.push((pairs[i].0.clone(), pairs[i].1.clone()));
            assert(pairs_of(kept@) =~= without(all.take(i as int), source@).push(all[i as int]));
        }
        i = i + 1;
    }
    assert(all.take(i as int) =~= all);
    kept
}

impl RemoteImages {
    /// The images as the rules speak of them.
    pub closed spec fn remote(&self) -> Remote {
        Remote {
            sources: texts(self.sources@),
            loaded: pairs_of(self.loaded@),
            failed: pairs_of(self.failed@),
        }
    }

    /// A page with no remote images.
    pub fn new() -> (r: RemoteImages)
        ensures
            r.remote() == (Remote { sources: seq![], loaded: seq![], failed: seq![] }),
    {
        let r = RemoteImages { sources: Vec::new(), loaded: Vec::new(), failed: Vec::new() };
        assert(texts(r.sources@) =~= seq![]);
        assert(pairs_of(r.loaded@) =~= seq![]);
        assert(pairs_of(r.failed@) =~= seq![]);
        r
    }

    /// Makes `sources` the remote images of the page, keeping what the reader has
    /// already loaded and what has failed.
    pub fn set_sources(&mut self, sources: Vec<String>)
        ensures
            final(self).remote() == (Remote { sources: texts(sources@), ..old(self).remote() }),
    {
        self.sources = sources;
    }

    /// The remote images of the page that nobody has asked for yet — what "load all"
    /// is a list of.
    pub fn unloaded_images(&self) -> (unloaded: Vec<String>)
        ensures
            texts(unloaded@) == not_yet_loaded(self.remote().sources, self.remote().loaded),
    {
        let ghost all = texts(self.sources@);
        let mut out: Vec<String> = Vec::new();
        let mut i: usize = 0;
        while i < self.sources.len()
            invariant
                i <= self.sources.len(),
                all == texts(self.sources@),
                texts(out@) == not_yet_loaded(all.take(i as int), pairs_of(self.loaded@)),
            decreases self.sources.len() - i,
        {
            proof {
                assert(all.take(i + 1).drop_last() =~= all.take(i as int));
                assert(all.take(i + 1).last() == all[i as int]);
            }
            if !self.has_image(self.sources[i].as_str()) {
                out.push(self.sources[i].clone());
                assert(texts(out@) =~= not_yet_loaded(all.take(i as int), pairs_of(self.loaded@)).push(
                    all[i as int],
                ));
            }
            i = i + 1;
        }
        assert(all.take(i as int) =~= all);
        out
    }

    /// Whether the reader has already asked for `source` and got it.
    pub fn has_image(&self, source: &str) -> (yes: bool)
        ensures
            yes == has_arrived(self.remote().loaded, source@),
    {
        let ghost loaded = pairs_of(self.loaded@);
        let mut i: usize = 0;
        while i < self.loaded.len()
            invariant
                i <= self.loaded.len(),
                loaded == pairs_of(self.loaded@),
                forall|j: int| 0 <= j < i ==> loaded[j].0 != source@,
            decreases self.loaded.len() - i,
        {
            if same_text(self.loaded[i].0.as_str(), source) {
                assert(loaded[i as int].0 == source@);
                return true;
            }
            i = i + 1;
        }
        false
    }

    /// An image the reader asked for has arrived and is served at `uri`: whatever was
    /// said about it failing before is forgotten.
    pub fn image_arrived(&mut self, source: &str, uri: String)
        ensures
            final(self).remote() == (Remote {
                loaded: old(self).remote().loaded.push((source@, uri@)),
                failed: without(old(self).remote().failed, source@),
                ..old(self).remote()
            }),
    {
        let mut failed = Vec::new();
        std::mem::swap(&mut failed, &mut self.failed);
        self.failed = dropping(failed, source);
        let ghost before = pairs_of(self.loaded@);
        self.loaded.push((source.to_owned(), uri));
        assert(pairs_of(self.loaded@) =~= before.push((source@, self.loaded@.last().1@)));
    }

    /// An image the reader asked for did not arrive, and `complaint` is what to say
    /// beside its placeholder — inline, and still one click away from being tried again.
    pub fn image_failed(&mut self, source: &str, complaint: String)
        ensures
            final(self).remote() == (Remote {
                failed: without(old(self).remote().failed, source@).push((source@, complaint@)),
                ..old(self).remote()
            }),
    {
        let mut failed = Vec::new();
        std::mem::swap(&mut failed, &mut self.failed);
        let mut kept = dropping(failed, source);
        let ghost before = pairs_of(kept@);
        kept.push((source.to_owned(), complaint));
        assert(pairs_of(kept@) =~= before.push((source@, kept@.last().1@)));
        self.failed = kept;
    }

    /// The remote images of this page as the object `remote.js` is called with.
    pub fn remote_state(&self) -> (state: String)
        ensures
            state@ == remote_state_text(self.remote()),
    {
        proof {
            reveal_strlit("{loaded:");
            reveal_strlit(",failed:");
        }
        let loaded = as_js_object(self.loaded.as_slice());
        let failed = as_js_object(self.failed.as_slice());
        let mut out = chars_of("{loaded:");
        extend_chars(&mut out, &chars_of(loaded.as_str()));
        extend_chars(&mut out, &chars_of(",failed:"));
        extend_chars(&mut out, &chars_of(failed.as_str()));
        out.push('}');
        proof {
            assert(crate::js::text_pairs(self.loaded@) =~= pairs_of(self.loaded@));
            assert(crate::js::text_pairs(self.failed@) =~= pairs_of(self.failed@));
            assert(out@ =~= remote_state_text(self.remote()));
        }
        string_of(&out)
    }
}

/// What the webview is to be told after the view has decided.
#[derive(Debug, PartialEq, Eq)]
pub enum Shown {
    /// Navigate to `uri`: a document arriving in the view.
    Load { uri: String },
    /// Bring the page up to date: patch in `patch` when there is a new body, then put
    /// the loaded remote images back into it.
    Update { patch: Option<String> },
    /// Nothing yet: the page has not finished loading, and what arrived is held until
    /// it has.
    Held,
}

/// The view's state as the rules speak of it.
pub struct Showing {
    /// The document URI the view has been sent to.
    pub loaded: Option<Seq<char>>,
    /// Whether that load has finished, so that there is a page to patch.
    pub ready: bool,
    /// A body that arrived before the load finished.
    pub pending: Option<Seq<char>>,
    /// How many loads the view has committed.
    pub navigations: nat,
    /// The folder of the document on screen.
    pub root: Seq<char>,
}

/// Whether showing the document at `uri` is a document arriving in a view that was
/// sent to `loaded` — a load, rather than a patch.
pub open spec fn arriving(loaded: Option<Seq<char>>, uri: Seq<char>) -> bool {
    loaded != Some(uri)
}

/// Where a document arriving at `uri` is loaded from: its URI, and the section asked
/// for after a `#` when there is one.
pub open spec fn load_target(uri: Seq<char>, fragment: Seq<char>) -> Seq<char> {
    if fragment.len() == 0 {
        uri
    } else {
        uri + seq!['#'] + fragment
    }
}

/// What the webview is told, as the rules speak of it.
pub enum Telling {
    Load(Seq<char>),
    Update(Option<Seq<char>>),
    Held,
}

impl View for Shown {
    type V = Telling;

    open spec fn view(&self) -> Telling {
        match self {
            Shown::Load { uri } => Telling::Load(uri@),
            Shown::Update { patch } => Telling::Update(
                match patch {
                    Some(p) => Some(p@),
                    None => None,
                },
            ),
            Shown::Held => Telling::Held,
        }
    }
}

/// One window's view of one document at a time.
pub struct DocumentView {
    loaded: Option<String>,
    ready: bool,
    pending: Option<String>,
    navigations: u32,
    root: String,
    images: RemoteImages,
}

impl DocumentView {
    /// The view as the rules speak of it.
    pub closed spec fn showing(&self) -> Showing {
        Showing {
            loaded: text_of(self.loaded),
            ready: self.ready,
            pending: text_of(self.pending),
            navigations: self.navigations as nat,
            root: self.root@,
        }
    }

    /// The remote images of the page on screen.
    pub closed spec fn remote(&self) -> Remote {
        self.images.remote()
    }

    /// A view that has been sent nowhere yet.
    pub fn new() -> (v: DocumentView)
        ensures
            v.showing() == (Showing {
                loaded: None,
                ready: false,
                pending: None,
                navigations: 0,
                root: seq![],
            }),
            v.remote() == (Remote { sources: seq![], loaded: seq![], failed: seq![] }),
    {
        let v = DocumentView {
            loaded: None,
            ready: false,
            pending: None,
            navigations: 0,
            root: String::new(),
            images: RemoteImages::new(),
        };
        v
    }

    /// What bringing the page up to date with `body` amounts to right now.
    fn update(&self, body: Option<String>) -> (what: Shown)
        ensures
            what@ == (if self.showing().ready {
                Telling::Update(text_of(body))
            } else {
                Telling::Held
            }),
    {
        if self.ready {
            Shown::Update { patch: body }
        } else {
            Shown::Held
        }
    }

    /// Puts a render on screen as the current state of the document published at
    /// `uri`, whose folder is `root` and whose remote images are `remote_images`, at the
    /// section `fragment` when the reader asked for one.
    ///
    /// The first render of a document is loaded; every render after it is patched into
    /// the page already showing, or held until that page has finished loading.
    pub fn show(
        &mut self,
        uri: &str,
        root: &str,
        body: String,
        remote_images: Vec<String>,
        fragment: &str,
    ) -> (what: Shown)
        ensures
            final(self).showing().loaded == Some(uri@),
            final(self).remote().sources == texts(remote_images@),
            final(self).showing().navigations == old(self).showing().navigations,
            arriving(old(self).showing().loaded, uri@) ==> {
                &&& what@ == Telling::Load(load_target(uri@, fragment@))
                &&& final(self).showing().ready == false
                &&& final(self).showing().pending == None::<Seq<char>>
                &&& final(self).showing().root == root@
                &&& final(self).remote().loaded.len() == 0
                &&& final(self).remote().failed.len() == 0
            },
            !arriving(old(self).showing().loaded, uri@) ==> {
                &&& final(self).showing().ready == old(self).showing().ready
                &&& final(self).showing().root == old(self).showing().root
                &&& final(self).remote().loaded == old(self).remote().loaded
                &&& final(self).remote().failed == old(self).remote().failed
                &&& if old(self).showing().ready {
                    &&& what@ == Telling::Update(Some(body@))
                    &&& final(self).showing().pending == old(self).showing().pending
                } else {
                    &&& what@ == Telling::Held
                    &&& final(self).showing().pending == Some(body@)
                }
            },
    {
        let arrives = match &self.loaded {
            Some(shown) => !same_text(shown.as_str(), uri),
            None => true,
        };
        if arrives {
            self.loaded = Some(uri.to_owned());
            self.root = root.to_owned();
            self.images = RemoteImages::new();
        }
        self.images.set_sources(remote_images);
        if arrives {
            self.ready = false;
            self.pending = None;
            let section = chars_of(fragment);
            let target = if section.len() == 0 {
                uri.to_owned()
            } else {
                let mut t = chars_of(uri);
                t.push('#');
                extend_chars(&mut t, &section);
                assert(t@ =~= uri@ + seq!['#'] + fragment@);
                string_of(&t)
            };
            Shown::Load { uri: target }
        } else if self.ready {
            Shown::Update { patch: Some(body) }
        } else {
            self.pending = Some(body);
            Shown::Held
        }
    }

    /// The view committed a load: one more navigation.
    pub fn committed(&mut self)
        requires
            old(self).showing().navigations < u32::MAX,
        ensures
            final(self).showing() == (Showing {
                navigations: old(self).showing().navigations + 1,
                ..old(self).showing()
            }),
            final(self).remote() == old(self).remote(),
    {
        self.navigations = self.navigations + 1;
    }

    /// The load finished: there is a page to patch now, and whatever arrived while it
    /// was loading is patched in.
    pub fn finished(&mut self) -> (what: Shown)
        ensures
            final(self).showing() == (Showing { ready: true, pending: None, ..old(self).showing() }),
            final(self).remote() == old(self).remote(),
            what@ == Telling::Update(old(self).showing().pending),
    {
        self.ready = true;
        let waiting = self.pending.take();
        self.update(waiting)
    }

    /// An image the reader asked for arrived and is served at `uri`.
    pub fn image_arrived(&mut self, source: &str, uri: String) -> (what: Shown)
        ensures
            final(self).showing() == old(self).showing(),
            final(self).remote() == (Remote {
                loaded: old(self).remote().loaded.push((source@, uri@)),
                failed: without(old(self).remote().failed, source@),
                ..old(self).remote()
            }),
            what@ == (if old(self).showing().ready {
                Telling::Update(None)
            } else {
                Telling::Held
            }),
    {
        self.images.image_arrived(source, uri);
        self.update(None)
    }

    /// An image the reader asked for did not arrive; `complaint` is what to say.
    pub fn image_failed(&mut self, source: &str, complaint: String) -> (what: Shown)
        ensures
            final(self).showing() == old(self).showing(),
            final(self).remote() == (Remote {
                failed: without(old(self).remote().failed, source@).push((source@, complaint@)),
                ..old(self).remote()
            }),
            what@ == (if old(self).showing().ready {
                Telling::Update(None)
            } else {
                Telling::Held
            }),
    {
        self.images.image_failed(source, complaint);
        self.update(None)
    }

    /// The remote images of the page on screen that nobody has asked for yet.
    pub fn unloaded_images(&self) -> (unloaded: Vec<String>)
        ensures
            texts(unloaded@) == not_yet_loaded(self.remote().sources, self.remote().loaded),
    {
        self.images.unloaded_images()
    }

    /// Whether the reader has already asked for `source` and got it.
    pub fn has_image(&self, source: &str) -> (yes: bool)
        ensures
            yes == has_arrived(self.remote().loaded, source@),
    {
        self.images.has_image(source)
    }

    /// The remote images of the page as the object `remote.js` is called with.
    pub fn remote_state(&self) -> (state: String)
        ensures
            state@ == remote_state_text(self.remote()),
    {
        self.images.remote_state()
    }

    /// How many loads this view has committed since it was built.
    pub fn navigations(&self) -> (n: u32)
        ensures
            n == self.showing().navigations,
    {
        self.navigations
    }

    /// The folder of the document on screen — the whole of what its links may reach.
    pub fn root(&self) -> (root: String)
        ensures
            root@ == self.showing().root,
    {
        self.root.clone()
    }
}

/// A document is loaded once: once the view has been sent to a document, showing that
/// document again — however many times, whatever it now says — is never a load.
pub proof fn law_a_document_is_loaded_once(uri: Seq<char>)
    ensures
        !arriving(Some(uri), uri),
{
}

/// A document the view has not been sent to always arrives as a load, so a new
/// document is never patched into the page of another.
pub proof fn law_another_document_is_always_loaded(loaded: Option<Seq<char>>, uri: Seq<char>)
    requires
        loaded != Some(uri),
    ensures
        arriving(loaded, uri),
{
}

/// An image that has arrived is never offered again by "load all", and every one that
/// has not, is.
pub proof fn law_load_all_offers_what_has_not_arrived(
    sources: Seq<Seq<char>>,
    loaded: Seq<(Seq<char>, Seq<char>)>,
    source: Seq<char>,
)
    ensures
        not_yet_loaded(sources, loaded).contains(source) <==> (sources.contains(source)
            && !has_arrived(loaded, source)),
    decreases sources.len(),
{
    if sources.len() > 0 {
        law_load_all_offers_what_has_not_arrived(sources.drop_last(), loaded, source);
        let rest = not_yet_loaded(sources.drop_last(), loaded);
        if sources.contains(source) && !has_arrived(loaded, source) {
            let i = choose|i: int| 0 <= i < sources.len() && sources[i] == source;
            if i < sources.len() - 1 {
                assert(sources.drop_last()[i] == source);
            } else {
                assert(rest.push(source).last() == source);
            }
        }
        if rest.contains(source) {
            let k = choose|k: int| 0 <= k < rest.len() && rest[k] == source;
            assert(rest.push(sources.last())[k] == source);
        }
        if not_yet_loaded(sources, loaded).contains(source) {
            if !rest.contains(source) {
                assert(sources.last() == source);
                assert(sources[sources.len() - 1] == source);
            } else {
                let k = choose|k: int| 0 <= k < sources.drop_last().len() && sources.drop_last()[k] == source;
                assert(sources[k] == source);
            }
        }
    }
}

} // verus!
