//! Window geometry persistence: a plain [`WindowGeometry`] value plus a
//! pluggable [`PersistenceStore`] the adopter implements. The framework owns the
//! shape of the data; the store owns where and how it is kept.
use vstd::prelude::*;

verus! {

/// A window's saved geometry: where it sits, how big it is, and whether it was
/// maximized.
#[derive(Copy, Clone, Debug, PartialEq, Eq)]
pub struct WindowGeometry {
    /// Top-left position in screen coordinates, or `None` when unknown.
    pub position: Option<(i32, i32)>,
    /// Logical content size in points.
    pub size: (u32, u32),
    /// Whether the window was maximized when captured.
    pub maximized: bool,
}

/// Creation options of a window: the title and flags the adopter chose, the
/// geometry a restore may override, and the key its geometry is stored under.
#[derive(Debug, PartialEq, Eq)]
pub struct WindowOptions {
    /// Window title.
    pub title: String,
    /// Logical content size in points.
    pub size: (u32, u32),
    /// Top-left position in screen coordinates; `None` lets the platform choose.
    pub position: Option<(i32, i32)>,
    /// Smallest logical size the user may resize to, if limited.
    pub min_size: Option<(u32, u32)>,
    /// Whether the user may resize the window.
    pub resizable: bool,
    /// Whether the window opens maximized.
    pub maximized: bool,
    /// Stable key the window's geometry is saved and restored under.
    pub persistence_key: Option<String>,
}

impl Default for WindowOptions {
    /// An untitled, resizable 800x600 window at a platform-chosen position,
    /// not maximized, with no persistence key.
    fn default() -> (r: WindowOptions)
        ensures
            r.title@ == Seq::<char>::empty(),
            r.size == (800u32, 600u32),
            r.position is None,
            r.min_size is None,
            r.resizable,
            !r.maximized,
            r.persistence_key is None,
    {
        WindowOptions {
            title: String::new(),
            size: (800, 600),
            position: None,
            min_size: None,
            resizable: true,
            maximized: false,
            persistence_key: None,
        }
    }
}

/// `opts` with `geometry` applied: its position when known, its size and its
/// maximized flag; every other option as it was.
pub open spec fn applied(opts: WindowOptions, geometry: WindowGeometry) -> WindowOptions {
    WindowOptions {
        position: if geometry.position is Some {
            geometry.position
        } else {
            opts.position
        },
        size: geometry.size,
        maximized: geometry.maximized,
        ..opts
    }
}

/// Applying a geometry makes the options' size and maximized flag the
/// geometry's, whatever they were, and its position the geometry's when it
/// has one (the options' own otherwise); title, minimum size, resizability
/// and persistence key are the options' own. Applying the same geometry twice
/// changes nothing more.
pub proof fn law_geometry_overrides(opts: WindowOptions, geometry: WindowGeometry)
    ensures
        applied(opts, geometry).maximized == geometry.maximized,
        applied(opts, geometry).size == geometry.size,
        geometry.position is Some ==> applied(opts, geometry).position == geometry.position,
        geometry.position is None ==> applied(opts, geometry).position == opts.position,
        applied(opts, geometry).title == opts.title,
        applied(opts, geometry).min_size == opts.min_size,
        applied(opts, geometry).resizable == opts.resizable,
        applied(opts, geometry).persistence_key == opts.persistence_key,
        applied(applied(opts, geometry), geometry) == applied(opts, geometry),
{
}

/// `opts` after restoring what a store gave back (unchanged for nothing).
pub open spec fn restored(opts: WindowOptions, loaded: Option<WindowGeometry>) -> WindowOptions {
    match loaded {
        Some(g) => applied(opts, g),
        None => opts,
    }
}

impl WindowGeometry {
    /// Apply this geometry onto creation options (restore on create):
    /// position (when known), size and the maximized flag are overridden;
    /// the adopter's other choices survive.
    pub fn apply_to(&self, opts: &mut WindowOptions)
        ensures
            *final(opts) == applied(*old(opts), *self),
            final(opts).maximized == self.maximized,
            final(opts).size == self.size,
            final(opts).position == (if self.position is Some {
                self.position
            } else {
                old(opts).position
            }),
    {
        match self.position {
            Some(pos) => {
                opts.position = Some(pos);
            },
            None => {},
        }
        opts.size = self.size;
        opts.maximized = self.maximized;
    }
}

/// Restore the geometry a store gave back onto `opts` (nothing for `None`).
pub fn restore_loaded(loaded: Option<WindowGeometry>, opts: &mut WindowOptions)
    ensures
        *final(opts) == restored(*old(opts), loaded),
{
    match loaded {
        Some(geometry) => geometry.apply_to(opts),
        None => {},
    }
}

/// Apply stored geometry onto `opts` when there is a store and `opts` carries
/// a persistence key; the options are untouched without either. The store is
/// asked to load the options' key, and the options end restored from its
/// answer.
pub fn restore_options<S: PersistenceStore>(store: Option<&S>, opts: &mut WindowOptions)
    ensures
        store is None || old(opts).persistence_key is None ==> *final(opts) == *old(opts),
        exists|loaded: Option<WindowGeometry>| *final(opts) == #[trigger] restored(*old(opts), loaded),
        store matches Some(s) ==> old(opts).persistence_key matches Some(k) ==> exists|loaded: Option<WindowGeometry>|
            s.answers(k@, loaded) && *final(opts) == #[trigger] restored(*old(opts), loaded),
{
    let loaded = match store {
        Some(s) => match &opts.persistence_key {
            Some(key) => s.load(key.as_str()),
            None => None,
        },
        None => None,
    };
    restore_loaded(loaded, opts);
}

/// Adopter-supplied storage for window geometry, keyed by the window's
/// persistence key.
pub trait PersistenceStore {
    /// `r` is an answer this store gives to a load of `key`.
    spec fn answers(&self, key: Seq<char>, r: Option<WindowGeometry>) -> bool;

    /// Load saved geometry for `key`, or `None` if nothing is stored.
    fn load(&self, key: &str) -> (r: Option<WindowGeometry>)
        ensures
            self.answers(key@, r),
    ;

    /// Save (or overwrite) the geometry stored under `key`.
    fn save(&mut self, key: &str, geometry: WindowGeometry);
}

/// One stored entry: the key and its geometry.
pub type StoreEntry = (String, WindowGeometry);

/// No key occurs twice among `s`.
pub open spec fn keys_unique(s: Seq<StoreEntry>) -> bool {
    forall|i: int, j: int| 0 <= i < j < s.len() ==> (#[trigger] s[i]).0@ != (#[trigger] s[j]).0@
}

/// `key` is stored somewhere in `s`.
pub open spec fn has_key(s: Seq<StoreEntry>, key: Seq<char>) -> bool {
    exists|i: int| 0 <= i < s.len() && (#[trigger] s[i]).0@ == key
}

/// Position of an entry of `s` stored under `key`.
pub open spec fn slot_of(s: Seq<StoreEntry>, key: Seq<char>) -> int {
    choose|i: int| 0 <= i < s.len() && (#[trigger] s[i]).0@ == key
}

/// The key-to-geometry map that the entries `s` stand for.
pub open spec fn entries_map(s: Seq<StoreEntry>) -> Map<Seq<char>, WindowGeometry> {
    Map::new(|k: Seq<char>| has_key(s, k), |k: Seq<char>| s[slot_of(s, k)].1)
}

/// In a key-unique sequence, the entry at `i` is the one stored under its key.
proof fn lemma_slot_unique(s: Seq<StoreEntry>, i: int)
    requires
        keys_unique(s),
        0 <= i < s.len(),
    ensures
        has_key(s, s[i].0@),
        slot_of(s, s[i].0@) == i,
        entries_map(s).contains_key(s[i].0@),
        entries_map(s)[s[i].0@] == s[i].1,
{
    let k = s[i].0@;
    assert(has_key(s, k));
    let w = slot_of(s, k);
    if w != i {
        assert(s[w].0@ == k);
    }
}

/// Overwriting the entry stored under `e`'s key keeps the keys unique and
/// updates the map at that key.
proof fn lemma_overwrite(s: Seq<StoreEntry>, i: int, e: StoreEntry)
    requires
        keys_unique(s),
        0 <= i < s.len(),
        s[i].0@ == e.0@,
    ensures
        keys_unique(s.update(i, e)),
        entries_map(s.update(i, e)) == entries_map(s).insert(e.0@, e.1),
{
    let t = s.update(i, e);
    assert forall|a: int, b: int| 0 <= a < b < t.len() implies (#[trigger] t[a]).0@ != (
    #[trigger] t[b]).0@ by {
        assert(s[a].0@ != s[b].0@);
    }
    let m = entries_map(t);
    let want = entries_map(s).insert(e.0@, e.1);
    assert forall|k: Seq<char>| #[trigger] m.contains_key(k) == want.contains_key(k) by {
        if has_key(s, k) {
            let w = choose|w: int| 0 <= w < s.len() && (#[trigger] s[w]).0@ == k;
            assert(t[w].0@ == k);
        }
        if has_key(t, k) {
            let w = choose|w: int| 0 <= w < t.len() && (#[trigger] t[w]).0@ == k;
            if w != i {
                assert(s[w].0@ == k);
            }
        }
        if k == e.0@ {
            assert(t[i].0@ == k);
        }
    }
    assert forall|k: Seq<char>| #[trigger] m.contains_key(k) implies m[k] == want[k] by {
        let w = choose|w: int| 0 <= w < t.len() && (#[trigger] t[w]).0@ == k;
        lemma_slot_unique(t, w);
        if w != i {
            lemma_slot_unique(s, w);
        }
    }
    assert(m =~= want);
}

/// Appending an entry under a new key keeps the keys unique and adds that key
/// to the map.
proof fn lemma_append(s: Seq<StoreEntry>, e: StoreEntry)
    requires
        keys_unique(s),
        !has_key(s, e.0@),
    ensures
        keys_unique(s.push(e)),
        entries_map(s.push(e)) == entries_map(s).insert(e.0@, e.1),
{
    let t = s.push(e);
    let last = s.len() as int;
    assert forall|a: int, b: int| 0 <= a < b < t.len() implies (#[trigger] t[a]).0@ != (
    #[trigger] t[b]).0@ by {
        if b == last {
            if t[a].0@ == e.0@ {
                assert(s[a].0@ == e.0@);
            }
        } else {
            assert(s[a].0@ != s[b].0@);
        }
    }
    let m = entries_map(t);
    let want = entries_map(s).insert(e.0@, e.1);
    assert forall|k: Seq<char>| #[trigger] m.contains_key(k) == want.contains_key(k) by {
        if has_key(s, k) {
            let w = choose|w: int| 0 <= w < s.len() && (#[trigger] s[w]).0@ == k;
            assert(t[w].0@ == k);
        }
        if has_key(t, k) {
            let w = choose|w: int| 0 <= w < t.len() && (#[trigger] t[w]).0@ == k;
            if w < last {
                assert(s[w].0@ == k);
            }
        }
        if k == e.0@ {
            assert(t[last].0@ == k);
        }
    }
    assert forall|k: Seq<char>| #[trigger] m.contains_key(k) implies m[k] == want[k] by {
        let w = choose|w: int| 0 <= w < t.len() && (#[trigger] t[w]).0@ == k;
        lemma_slot_unique(t, w);
        if w < last {
            lemma_slot_unique(s, w);
        }
    }
    assert(m =~= want);
}

/// In-memory [`PersistenceStore`]: geometry survives within one process run
/// but not across restart.
pub struct InMemoryStore {
    /// Saved entries, at most one per key.
    map: Vec<StoreEntry>,
}

impl InMemoryStore {
    /// Each key is stored at most once.
    #[verifier::type_invariant]
    spec fn keys_are_unique(self) -> bool {
        keys_unique(self.map@)
    }
}

impl View for InMemoryStore {
    type V = Map<Seq<char>, WindowGeometry>;

    closed spec fn view(&self) -> Map<Seq<char>, WindowGeometry> {
        entries_map(self.map@)
    }
}

impl InMemoryStore {
    /// An empty store.
    pub fn new() -> (r: InMemoryStore)
        ensures
            r@ == Map::<Seq<char>, WindowGeometry>::empty(),
    {
        let r = InMemoryStore { map: Vec::new() };
        assert(r@ =~= Map::<Seq<char>, WindowGeometry>::empty());
        r
    }

    /// Position of `key`'s entry, if stored.
    fn find(&self, key: &str) -> (r: Option<usize>)
        ensures
            r matches Some(i) ==> i < self.map@.len() && self.map@[i as int].0@ == key@,
            r is None ==> !has_key(self.map@, key@),
    {
        let k = key.to_owned();
        let mut i: usize = 0;
        while i < self.map.len()
            invariant
                i <= self.map@.len(),
                k@ == key@,
                forall|a: int| 0 <= a < i ==> (#[trigger] self.map@[a]).0@ != key@,
            decreases self.map.len() - i,
        {
            if self.map[i].0 == k {
                return Some(i);
            }
            i = i + 1;
        }
        None
    }
}

impl Default for InMemoryStore {
    fn default() -> (r: InMemoryStore)
        ensures
            r@ == Map::<Seq<char>, WindowGeometry>::empty(),
    {
        InMemoryStore::new()
    }
}

impl PersistenceStore for InMemoryStore {
    /// The geometry stored under `key`, `None` when there is none.
    open spec fn answers(&self, key: Seq<char>, r: Option<WindowGeometry>) -> bool {
        r == (if self@.contains_key(key) {
            Some(self@[key])
        } else {
            None
        })
    }

    fn load(&self, key: &str) -> (r: Option<WindowGeometry>)
        ensures
            r == (if self@.contains_key(key@) {
                Some(self@[key@])
            } else {
                None
            }),
    {
        proof {
            use_type_invariant(self);
        }
        match self.find(key) {
            Some(i) => {
                proof {
                    lemma_slot_unique(self.map@, i as int);
                }
                Some(self.map[i].1)
            },
            None => None,
        }
    }

    fn save(&mut self, key: &str, geometry: WindowGeometry)
        ensures
            final(self)@ == old(self)@.insert(key@, geometry),
    {
        proof {
            use_type_invariant(&*self);
        }
        let found = self.find(key);
        let mut entries: Vec<StoreEntry> = Vec::new();
        std::mem::swap(&mut entries, &mut self.map);
        let ghost before = entries@;
        let entry: StoreEntry = (key.to_owned(), geometry);
        match found {
            Some(i) => {
                proof {
                    lemma_overwrite(before, i as int, entry);
                }
                entries.set(i, entry);
            },
            None => {
                proof {
                    lemma_append(before, entry);
                }
                entries.push(entry);
            },
        }
        self.map = entries;
    }
}

/// Saving under `key` and then loading `key` gives back what was saved, and
/// loading any other key gives what it gave before the save.
pub proof fn law_load_after_save(
    before: Map<Seq<char>, WindowGeometry>,
    key: Seq<char>,
    geometry: WindowGeometry,
    other: Seq<char>,
)
    requires
        other != key,
    ensures
        before.insert(key, geometry).contains_key(key),
        before.insert(key, geometry)[key] == geometry,
        before.insert(key, geometry).contains_key(other) == before.contains_key(other),
        before.contains_key(other) ==> before.insert(key, geometry)[other] == before[other],
{
}

} // verus!
