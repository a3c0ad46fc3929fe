//! Identity-keyed memoization of loaded fonts.
//!
//! A font is fully determined by its source (a bundled byte slice or a system
//! family name) plus the size and scale it was built at, and is immutable
//! once loaded, so loaded fonts are memoized and shared. The cache is a flat
//! map with an entry cap; on overflow it clears before the next insert (the
//! working set is the handful of fonts on screen, and a font is cheap to
//! reload).
use vstd::prelude::*;

verus! {

/// Default entry cap before the cache clears on the next insert.
pub const DEFAULT_MAX_ENTRIES: usize = 256;

/// Identity of a loaded font: its source plus the size and scale it was built
/// at. Sizes and scales are keyed by their exact bit patterns, byte sources by
/// the slice's address and length, system fonts by family name.
#[derive(Clone, Debug)]
pub enum FontCacheKey {
    /// Font loaded from a static byte slice (bundled font).
    Bytes {
        /// Address of the bytes.
        ptr: usize,
        /// Length of the bytes.
        len: usize,
        /// Size bit pattern.
        size_bits: u32,
        /// Scale bit pattern.
        scale_bits: u32,
    },
    /// Font loaded from the system collection by family name.
    Family {
        /// Family name.
        family: String,
        /// Size bit pattern.
        size_bits: u32,
        /// Scale bit pattern.
        scale_bits: u32,
    },
}

/// Abstract value of a key.
pub enum FontKeyView {
    /// Address, length, size bits, scale bits.
    Bytes(usize, usize, u32, u32),
    /// Family name, size bits, scale bits.
    Family(Seq<char>, u32, u32),
}

impl View for FontCacheKey {
    type V = FontKeyView;

    open spec fn view(&self) -> FontKeyView {
        match self {
            FontCacheKey::Bytes { ptr, len, size_bits, scale_bits } => FontKeyView::Bytes(
                *ptr,
                *len,
                *size_bits,
                *scale_bits,
            ),
            FontCacheKey::Family { family, size_bits, scale_bits } => FontKeyView::Family(
                family@,
                *size_bits,
                *scale_bits,
            ),
        }
    }
}

impl FontCacheKey {
    /// Whether two keys name the same font.
    pub fn same_as(&self, other: &FontCacheKey) -> (r: bool)
        ensures
            r == (self@ == other@),
    {
        match (self, other) {
            (
                FontCacheKey::Bytes { ptr: p1, len: l1, size_bits: s1, scale_bits: c1 },
                FontCacheKey::Bytes { ptr: p2, len: l2, size_bits: s2, scale_bits: c2 },
            ) => *p1 == *p2 && *l1 == *l2 && *s1 == *s2 && *c1 == *c2,
            (
                FontCacheKey::Family { family: f1, size_bits: s1, scale_bits: c1 },
                FontCacheKey::Family { family: f2, size_bits: s2, scale_bits: c2 },
            ) => {
                let same_family = *f1 == *f2;
                same_family && *s1 == *s2 && *c1 == *c2
            },
            _ => false,
        }
    }

    /// A field-by-field copy of this key.
    pub fn duplicate(&self) -> (r: FontCacheKey)
        ensures
            r@ == self@,
    {
        match self {
            FontCacheKey::Bytes { ptr, len, size_bits, scale_bits } => FontCacheKey::Bytes {
                ptr: *ptr,
                len: *len,
                size_bits: *size_bits,
                scale_bits: *scale_bits,
            },
            FontCacheKey::Family { family, size_bits, scale_bits } => FontCacheKey::Family {
                family: family.clone(),
                size_bits: *size_bits,
                scale_bits: *scale_bits,
            },
        }
    }
}

/// Memoizes loaded fonts by key. Generic over the stored value; a stored
/// font is shared by cloning it (a reference-count bump).
pub struct FontCache<V> {
    /// Entries, at most one per key.
    entries: Vec<(FontCacheKey, V)>,
    /// Entry cap: the cache clears before inserting at this size.
    max_entries: usize,
    hits: u64,
    misses: u64,
}

/// No key occurs twice among `s`.
pub open spec fn font_keys_unique<V>(s: Seq<(FontCacheKey, V)>) -> bool {
    forall|i: int, j: int| 0 <= i < j < s.len() ==> (#[trigger] s[i]).0@ != (#[trigger] s[j]).0@
}

/// The key-to-value map that the entries `s` stand for.
pub open spec fn font_entries_map<V>(s: Seq<(FontCacheKey, V)>) -> Map<FontKeyView, V> {
    Map::new(
        |k: FontKeyView| exists|i: int| 0 <= i < s.len() && (#[trigger] s[i]).0@ == k,
        |k: FontKeyView| s[choose|i: int| 0 <= i < s.len() && (#[trigger] s[i]).0@ == k].1,
    )
}

impl<V> FontCache<V> {
    /// Each key is stored at most once.
    #[verifier::type_invariant]
    spec fn keys_are_unique(self) -> bool {
        font_keys_unique(self.entries@)
    }

    /// The cached fonts by key.
    pub closed spec fn cached(&self) -> Map<FontKeyView, V> {
        font_entries_map(self.entries@)
    }

    /// The entry cap.
    pub closed spec fn cap(&self) -> usize {
        self.max_entries
    }

    /// Hits so far.
    pub closed spec fn hit_count(&self) -> u64 {
        self.hits
    }

    /// Misses so far.
    pub closed spec fn miss_count(&self) -> u64 {
        self.misses
    }

    /// An empty cache with the default entry cap.
    pub fn new() -> (r: FontCache<V>)
        ensures
            r.cached() == Map::<FontKeyView, V>::empty(),
            r.cap() == DEFAULT_MAX_ENTRIES,
            r.hit_count() == 0,
            r.miss_count() == 0,
    {
        FontCache::with_max_entries(DEFAULT_MAX_ENTRIES)
    }

    /// An empty cache with entry cap `max_entries`.
    pub fn with_max_entries(max_entries: usize) -> (r: FontCache<V>)
        ensures
            r.cached() == Map::<FontKeyView, V>::empty(),
            r.cap() == max_entries,
            r.hit_count() == 0,
            r.miss_count() == 0,
    {
        let r = FontCache { entries: Vec::new(), max_entries, hits: 0, misses: 0 };
        assert(r.cached() =~= Map::<FontKeyView, V>::empty());
        r
    }

    /// Number of cache hits since construction.
    pub fn hits(&self) -> (r: u64)
        ensures
            r == self.hit_count(),
    {
        self.hits
    }

    /// Number of cache misses since construction.
    pub fn misses(&self) -> (r: u64)
        ensures
            r == self.miss_count(),
    {
        self.misses
    }

    /// Number of entries held.
    pub fn len(&self) -> (r: usize)
        ensures
            r == self.cached().len(),
    {
        proof {
            use_type_invariant(self);
            lemma_font_map_len(self.entries@);
        }
        self.entries.len()
    }

    /// Position of `key`'s entry, if stored.
    fn find(&self, key: &FontCacheKey) -> (r: Option<usize>)
        ensures
            r matches Some(i) ==> i < self.entries@.len() && self.entries@[i as int].0@ == key@,
            r is None ==> forall|i: int| 0 <= i < self.entries@.len() ==> (#[trigger] self.entries@[i]).0@ != key@,
    {
        let mut i: usize = 0;
        while i < self.entries.len()
            invariant
                i <= self.entries@.len(),
                forall|a: int| 0 <= a < i ==> (#[trigger] self.entries@[a]).0@ != key@,
            decreases self.entries.len() - i,
        {
            if self.entries[i].0.same_as(key) {
                return Some(i);
            }
            i = i + 1;
        }
        None
    }
}

impl<V: Clone> FontCache<V> {
    /// The cached value for `key` (a clone of it), or, on a miss, the result
    /// of `load`: an `Ok` value is stored (after clearing every entry when
    /// the cap is reached) and returned; an `Err` is returned and never
    /// stored. A hit never runs `load`.
    pub fn get_or_load<F, E>(&mut self, key: FontCacheKey, load: F) -> (r: Result<V, E>) where
        F: FnOnce() -> Result<V, E>,

        requires
            call_requires(load, ()),
            old(self).hit_count() < u64::MAX,
            old(self).miss_count() < u64::MAX,
        ensures
            final(self).cap() == old(self).cap(),
            old(self).cached().contains_key(key@) ==> {
                &&& (r matches Ok(v) && cloned::<V>(old(self).cached()[key@], v))
                &&& final(self).cached() == old(self).cached()
                &&& final(self).hit_count() == old(self).hit_count() + 1
                &&& final(self).miss_count() == old(self).miss_count()
            },
            !old(self).cached().contains_key(key@) ==> {
                &&& final(self).hit_count() == old(self).hit_count()
                &&& final(self).miss_count() == old(self).miss_count() + 1
                &&& call_ensures(load, (), r)
                &&& (r is Err ==> final(self).cached() == old(self).cached())
                &&& (r is Ok ==> exists|stored: V|
                    cloned::<V>(r->Ok_0, stored) && final(self).cached() == (if old(self).cached().len()
                        >= old(self).cap() {
                        Map::<FontKeyView, V>::empty()
                    } else {
                        old(self).cached()
                    }).insert(key@, stored))
            },
    {
        proof {
            use_type_invariant(&*self);
            lemma_font_map_len(self.entries@);
        }
        if let Some(i) = self.find(&key) {
            proof {
                lemma_font_slot(self.entries@, i as int);
            }
            self.hits = self.hits + 1;
            let v = self.entries[i].1.clone();
            return Ok(v);
        }
        self.misses = self.misses + 1;
        let loaded = load();
        match loaded {
            Err(e) => Err(e),
            Ok(value) => {
                let mut entries: Vec<(FontCacheKey, V)> = Vec::new();
                std::mem::swap(&mut entries, &mut self.entries);
                let ghost before = entries@;
                if entries.len() >= self.max_entries {
                    entries.clear();
                    proof {
                        assert(font_entries_map(entries@) =~= Map::<FontKeyView, V>::empty());
                    }
                }
                let ghost base = entries@;
                let stored = value.clone();
                let ghost stored_copy = stored;
                let ghost key_view = key@;
                let entry = (key, stored);
                proof {
                    lemma_font_append(base, entry);
                }
                entries.push(entry);
                self.entries = entries;
                proof {
                    assert(cloned::<V>(value, stored_copy));
                    assert(self.cached() == (if old(self).cached().len() >= old(self).cap() {
                        Map::<FontKeyView, V>::empty()
                    } else {
                        old(self).cached()
                    }).insert(key_view, stored_copy));
                }
                Ok(value)
            },
        }
    }
}

/// After a successful load under `key` the cache holds the stored value
/// under `key`, whether or not the overflow clear ran first, so the next
/// request for `key` is a hit that hands out that value.
pub proof fn law_loaded_key_hits<V>(cached: Map<FontKeyView, V>, cap: usize, key: FontKeyView, stored: V)
    ensures
        ({
            let after = (if cached.len() >= cap {
                Map::<FontKeyView, V>::empty()
            } else {
                cached
            }).insert(key, stored);
            after.contains_key(key) && after[key] == stored
        }),
{
}

/// Appending an entry under a new key keeps the keys unique and adds that key
/// to the map.
proof fn lemma_font_append<V>(s: Seq<(FontCacheKey, V)>, e: (FontCacheKey, V))
    requires
        font_keys_unique(s),
        forall|i: int| 0 <= i < s.len() ==> (#[trigger] s[i]).0@ != e.0@,
    ensures
        font_keys_unique(s.push(e)),
        font_entries_map(s.push(e)) == font_entries_map(s).insert(e.0@, e.1),
{
    let t = s.push(e);
    let last = s.len() as int;
    assert forall|a: int, b: int| 0 <= a < b < t.len() implies (#[trigger] t[a]).0@ != (
    #[trigger] t[b]).0@ by {
        if b == last {
            assert(s[a].0@ != e.0@);
        } else {
            assert(s[a].0@ != s[b].0@);
        }
    }
    let m = font_entries_map(t);
    let want = font_entries_map(s).insert(e.0@, e.1);
    assert forall|k: FontKeyView| #[trigger] m.contains_key(k) == want.contains_key(k) by {
        if font_entries_map(s).contains_key(k) {
            let w = choose|w: int| 0 <= w < s.len() && (#[trigger] s[w]).0@ == k;
            assert(t[w].0@ == k);
        }
        if m.contains_key(k) {
            let w = choose|w: int| 0 <= w < t.len() && (#[trigger] t[w]).0@ == k;
            if w < last {
                assert(s[w].0@ == k);
            }
        }
        if k == e.0@ {
            assert(t[last].0@ == k);
        }
    }
    assert forall|k: FontKeyView| #[trigger] m.contains_key(k) implies m[k] == want[k] by {
        let w = choose|w: int| 0 <= w < t.len() && (#[trigger] t[w]).0@ == k;
        lemma_font_slot(t, w);
        if w < last {
            lemma_font_slot(s, w);
        }
    }
    assert(m =~= want);
}

/// In a key-unique sequence, the entry at `i` is the one stored under its key.
proof fn lemma_font_slot<V>(s: Seq<(FontCacheKey, V)>, i: int)
    requires
        font_keys_unique(s),
        0 <= i < s.len(),
    ensures
        font_entries_map(s).contains_key(s[i].0@),
        font_entries_map(s)[s[i].0@] == s[i].1,
{
    let k = s[i].0@;
    assert(s[i].0@ == k);
    let w = choose|w: int| 0 <= w < s.len() && (#[trigger] s[w]).0@ == k;
    if w != i {
        assert(s[w].0@ == k);
    }
}

/// A key-unique sequence has one map entry per element.
proof fn lemma_font_map_len<V>(s: Seq<(FontCacheKey, V)>)
    requires
        font_keys_unique(s),
    ensures
        font_entries_map(s).len() == s.len(),
        font_entries_map(s).dom().finite(),
    decreases s.len(),
{
    let m = font_entries_map(s);
    if s.len() == 0 {
        assert(m.dom() =~= Set::<FontKeyView>::empty());
    } else {
        let init = s.drop_last();
        assert forall|a: int, b: int| 0 <= a < b < init.len() implies (#[trigger] init[a]).0@ != (
        #[trigger] init[b]).0@ by {
            assert(s[a].0@ != s[b].0@);
        }
        lemma_font_map_len(init);
        let last = s.last().0@;
        assert forall|k: FontKeyView| #[trigger] m.dom().contains(k) == font_entries_map(init).dom().insert(
            last,
        ).contains(k) by {
            if m.dom().contains(k) {
                let w = choose|w: int| 0 <= w < s.len() && (#[trigger] s[w]).0@ == k;
                if w < init.len() {
                    assert(init[w].0@ == k);
                }
            }
            if font_entries_map(init).dom().contains(k) {
                let w = choose|w: int| 0 <= w < init.len() && (#[trigger] init[w]).0@ == k;
                assert(s[w].0@ == k);
            }
            if k == last {
                assert(s[s.len() - 1].0@ == k);
            }
        }
        assert(m.dom() =~= font_entries_map(init).dom().insert(last));
        assert(!font_entries_map(init).dom().contains(last)) by {
            if font_entries_map(init).dom().contains(last) {
                let w = choose|w: int| 0 <= w < init.len() && (#[trigger] init[w]).0@ == last;
                assert(s[w].0@ != s[s.len() - 1].0@);
            }
        }
    }
}

} // verus!
