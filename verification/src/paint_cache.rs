//! Text shaping cache: skip re-shaping a text element whose content, style
//! and bounds are unchanged since it was last shaped.
//!
//! Entries are keyed by element id and carry the hash of the shaping inputs
//! they were made from; a lookup hits only when the hash matches. Hash 0 is
//! the sentinel for "caching disabled". Entries not seen for two or more
//! frames are dropped by [`TextShapingCache::gc`], which then, if the memory
//! cap is still exceeded, evicts the oldest quarter of the entries once. The cache
//! is generic over the shaped payload it stores.
use vstd::prelude::*;

use std::collections::HashMap;

use crate::map_keys::keys_of;
use crate::types::ElementId;

verus! {

broadcast use vstd::std_specs::hash::group_hash_axioms;

/// Default memory cap: 50 MB.
pub const DEFAULT_MEMORY_CAP: usize = 50 * 1024 * 1024;

/// Per-element size cap: 64 KB. Larger shapes are never cached.
pub const PER_ELEMENT_SIZE_CAP: usize = 64 * 1024;

/// Cached shaping for one text element.
#[derive(Clone, Debug)]
pub struct CachedTextShape<L> {
    /// Hash of the shaping inputs, to detect staleness.
    pub input_hash: u64,
    /// The shaped payload.
    pub lines: L,
    /// Frame counter when last accessed.
    pub last_seen_frame: u64,
    /// Approximate size in bytes, for the memory cap.
    pub size_bytes: usize,
}

/// Cache of shaped text per element.
pub struct TextShapingCache<L> {
    entries: HashMap<u64, CachedTextShape<L>>,
    current_frame: u64,
    memory_used: usize,
    memory_cap: usize,
    hit_count: u64,
    miss_count: u64,
}

/// `a - b`, or 0 when `b` exceeds `a`.
pub open spec fn sat_sub(a: int, b: int) -> int {
    if a >= b {
        a - b
    } else {
        0
    }
}

/// The memory accounting after storing a `size`-byte shape under `key` in
/// `shapes`: the size of a replaced entry is released first.
pub open spec fn memory_after_store<L>(shapes: Map<u64, CachedTextShape<L>>, memory: usize, key: u64, size: usize) -> int {
    (if shapes.contains_key(key) {
        sat_sub(memory as int, shapes[key].size_bytes as int)
    } else {
        memory as int
    }) + size
}

/// Total bytes of the shapes of `keys` in `shapes`.
pub open spec fn size_total<L>(shapes: Map<u64, CachedTextShape<L>>, keys: Seq<u64>) -> int
    decreases keys.len(),
{
    if keys.len() == 0 {
        0
    } else {
        size_total(shapes, keys.drop_last()) + shapes[keys.last()].size_bytes
    }
}

/// The ids whose shapes were last seen before frame `cutoff`.
pub open spec fn stale_keys<L>(shapes: Map<u64, CachedTextShape<L>>, cutoff: u64) -> Set<u64> {
    Set::new(|k: u64| shapes.contains_key(k) && shapes[k].last_seen_frame < cutoff)
}

/// `ev` lists, once each, the `ceil(n / 4)` shapes of `shapes` (of `n`)
/// seen least recently: none left out was seen before any of them.
pub open spec fn oldest_quarter<L>(shapes: Map<u64, CachedTextShape<L>>, ev: Seq<u64>) -> bool {
    &&& ev.no_duplicates()
    &&& ev.len() == (shapes.len() + 3) / 4
    &&& forall|i: int| 0 <= i < ev.len() ==> shapes.contains_key(#[trigger] ev[i])
    &&& forall|i: int, k: u64|
        0 <= i < ev.len() && shapes.contains_key(k) && !ev.contains(k) ==> shapes[#[trigger] ev[i]].last_seen_frame
            <= #[trigger] shapes[k].last_seen_frame
}

/// `after` and `memory_after` result from evicting the oldest quarter of
/// `before`, whose bytes are released from `memory_before`.
pub open spec fn quarter_evicted<L>(
    before: Map<u64, CachedTextShape<L>>,
    memory_before: int,
    after: Map<u64, CachedTextShape<L>>,
    memory_after: int,
) -> bool {
    exists|ev: Seq<u64>|
        {
            &&& #[trigger] oldest_quarter(before, ev)
            &&& after == before.remove_keys(ev.to_set())
            &&& memory_after == sat_sub(memory_before, size_total(before, ev))
        }
}

/// Total bytes of all the shapes in `shapes`.
pub open spec fn total_bytes<L>(shapes: Map<u64, CachedTextShape<L>>) -> int
    decreases shapes.len(),
{
    if shapes.dom().finite() && shapes.len() > 0 {
        let k = shapes.dom().choose();
        shapes[k].size_bytes + total_bytes(shapes.remove(k))
    } else {
        0
    }
}

/// The total splits into any one shape and the rest.
proof fn lemma_total_remove<L>(shapes: Map<u64, CachedTextShape<L>>, k: u64)
    requires
        shapes.dom().finite(),
        shapes.contains_key(k),
    ensures
        total_bytes(shapes) == shapes[k].size_bytes + total_bytes(shapes.remove(k)),
    decreases shapes.len(),
{
    let c = shapes.dom().choose();
    if c != k {
        lemma_total_remove(shapes.remove(c), k);
        lemma_total_remove(shapes.remove(k), c);
        assert(shapes.remove(c).remove(k) =~= shapes.remove(k).remove(c));
    }
}

/// Storing `v` under `k` replaces the bytes of the shape it replaces.
proof fn lemma_total_insert<L>(shapes: Map<u64, CachedTextShape<L>>, k: u64, v: CachedTextShape<L>)
    requires
        shapes.dom().finite(),
    ensures
        total_bytes(shapes.insert(k, v)) == total_bytes(shapes) - (if shapes.contains_key(k) {
            shapes[k].size_bytes as int
        } else {
            0
        }) + v.size_bytes,
{
    lemma_total_remove(shapes.insert(k, v), k);
    assert(shapes.insert(k, v).remove(k) =~= shapes.remove(k));
    if shapes.contains_key(k) {
        lemma_total_remove(shapes, k);
    } else {
        assert(shapes.remove(k) =~= shapes);
    }
}

/// Removing the shapes of `keys` releases exactly their bytes.
proof fn lemma_total_remove_keys<L>(shapes: Map<u64, CachedTextShape<L>>, keys: Seq<u64>)
    requires
        shapes.dom().finite(),
        keys.no_duplicates(),
        forall|i: int| 0 <= i < keys.len() ==> shapes.contains_key(#[trigger] keys[i]),
    ensures
        total_bytes(shapes) == size_total(shapes, keys) + total_bytes(shapes.remove_keys(keys.to_set())),
    decreases keys.len(),
{
    if keys.len() == 0 {
        assert(shapes.remove_keys(keys.to_set()) =~= shapes);
    } else {
        let rest = keys.drop_last();
        let k = keys.last();
        assert forall|i: int| 0 <= i < rest.len() implies shapes.contains_key(#[trigger] rest[i]) by {
            assert(rest[i] == keys[i]);
        }
        lemma_total_remove_keys(shapes, rest);
        let before = shapes.remove_keys(rest.to_set());
        assert(!rest.contains(k)) by {
            if rest.contains(k) {
                let j = choose|j: int| 0 <= j < rest.len() && rest[j] == k;
                assert(keys[j] == keys[keys.len() - 1]);
            }
        }
        assert(before.contains_key(k));
        assert(before.dom() =~= shapes.dom().difference(rest.to_set()));
        lemma_total_remove(before, k);
        rest.lemma_push_to_set_commute(k);
        assert(rest.push(k) =~= keys);
        assert(before.remove(k) =~= shapes.remove_keys(keys.to_set()));
    }
}

/// The total of the shapes is never negative.
proof fn lemma_total_nonneg<L>(shapes: Map<u64, CachedTextShape<L>>)
    ensures
        total_bytes(shapes) >= 0,
    decreases shapes.len(),
{
    if shapes.dom().finite() && shapes.len() > 0 {
        lemma_total_nonneg(shapes.remove(shapes.dom().choose()));
    }
}

/// A byte total is never negative.
proof fn lemma_size_total_nonneg<L>(shapes: Map<u64, CachedTextShape<L>>, keys: Seq<u64>)
    ensures
        size_total(shapes, keys) >= 0,
    decreases keys.len(),
{
    if keys.len() > 0 {
        lemma_size_total_nonneg(shapes, keys.drop_last());
    }
}

/// Releasing `a` bytes and then `b` bytes, saturating at 0, releases `a + b`.
proof fn lemma_sat_sub_twice(m: int, a: int, b: int)
    requires
        a >= 0,
        b >= 0,
    ensures
        sat_sub(sat_sub(m, a), b) == sat_sub(m, a + b),
{
}

impl<L> TextShapingCache<L> {
    /// Well-formed: the memory accounted is the total of the cached shapes.
    pub closed spec fn wf(&self) -> bool {
        self.memory_used == total_bytes(self.entries@)
    }

    /// The cached shapes by element id.
    pub closed spec fn shapes(&self) -> Map<u64, CachedTextShape<L>> {
        self.entries@
    }

    /// The frame counter.
    pub closed spec fn frame_now(&self) -> u64 {
        self.current_frame
    }

    /// Bytes accounted to cached shapes.
    pub closed spec fn memory_in_use(&self) -> usize {
        self.memory_used
    }

    /// The memory cap.
    pub closed spec fn memory_limit(&self) -> usize {
        self.memory_cap
    }

    /// Hits so far.
    pub closed spec fn hit_total(&self) -> u64 {
        self.hit_count
    }

    /// Misses so far.
    pub closed spec fn miss_total(&self) -> u64 {
        self.miss_count
    }

    /// A cache with the default 50 MB memory cap.
    pub fn new() -> (r: TextShapingCache<L>)
        ensures
            r.wf(),
            r.shapes() == Map::<u64, CachedTextShape<L>>::empty(),
            r.frame_now() == 0,
            r.memory_in_use() == 0,
            r.memory_limit() == DEFAULT_MEMORY_CAP,
            r.hit_total() == 0,
            r.miss_total() == 0,
    {
        TextShapingCache::with_memory_cap(DEFAULT_MEMORY_CAP)
    }

    /// A cache with memory cap `memory_cap`.
    pub fn with_memory_cap(memory_cap: usize) -> (r: TextShapingCache<L>)
        ensures
            r.wf(),
            r.shapes() == Map::<u64, CachedTextShape<L>>::empty(),
            r.frame_now() == 0,
            r.memory_in_use() == 0,
            r.memory_limit() == memory_cap,
            r.hit_total() == 0,
            r.miss_total() == 0,
    {
        TextShapingCache {
            entries: HashMap::new(),
            current_frame: 0,
            memory_used: 0,
            memory_cap,
            hit_count: 0,
            miss_count: 0,
        }
    }

    /// Whether `id` has a cached shape made from inputs hashing to `input_hash`.
    fn is_hit(&self, id: u64, input_hash: u64) -> (r: bool)
        ensures
            r == (self.shapes().contains_key(id) && self.shapes()[id].input_hash == input_hash),
    {
        match self.entries.get(&id) {
            Some(e) => e.input_hash == input_hash,
            None => false,
        }
    }

    /// Mark `id`'s entry as seen this frame.
    fn touch(&mut self, id: u64)
        requires
            old(self).wf(),
            old(self).shapes().contains_key(id),
        ensures
            final(self).wf(),
            final(self).shapes() == old(self).shapes().insert(
                id,
                CachedTextShape { last_seen_frame: old(self).frame_now(), ..old(self).shapes()[id] },
            ),
            final(self).frame_now() == old(self).frame_now(),
            final(self).memory_in_use() == old(self).memory_in_use(),
            final(self).memory_limit() == old(self).memory_limit(),
            final(self).hit_total() == old(self).hit_total(),
            final(self).miss_total() == old(self).miss_total(),
    {
        match self.entries.remove(&id) {
            Some(e) => {
                let seen = CachedTextShape { last_seen_frame: self.current_frame, ..e };
                self.entries.insert(id, seen);
                proof {
                    lemma_total_insert(old(self).entries@, id, seen);
                    assert(self.entries@ =~= old(self).shapes().insert(
                        id,
                        CachedTextShape { last_seen_frame: old(self).frame_now(), ..old(self).shapes()[id] },
                    ));
                }
            },
            None => {},
        }
    }

    /// The cached shape of `id` if it was made from inputs hashing to
    /// `input_hash`, marking it seen this frame. Hash 0 disables caching.
    /// A miss changes nothing.
    pub fn get(&mut self, id: ElementId, input_hash: u64) -> (r: Option<&L>)
        requires
            old(self).wf(),
            old(self).hit_total() < u64::MAX,
        ensures
            final(self).wf(),
            final(self).frame_now() == old(self).frame_now(),
            final(self).memory_in_use() == old(self).memory_in_use(),
            final(self).memory_limit() == old(self).memory_limit(),
            final(self).miss_total() == old(self).miss_total(),
            if input_hash != 0 && old(self).shapes().contains_key(id.0) && old(self).shapes()[id.0].input_hash
                == input_hash {
                &&& (r matches Some(l) && *l == old(self).shapes()[id.0].lines)
                &&& final(self).shapes() == old(self).shapes().insert(
                    id.0,
                    CachedTextShape {
                        last_seen_frame: old(self).frame_now(),
                        ..old(self).shapes()[id.0]
                    },
                )
                &&& final(self).hit_total() == old(self).hit_total() + 1
            } else {
                &&& r is None
                &&& final(self).shapes() == old(self).shapes()
                &&& final(self).hit_total() == old(self).hit_total()
            },
    {
        if input_hash == 0 || !self.is_hit(id.0, input_hash) {
            return None;
        }
        self.touch(id.0);
        self.hit_count = self.hit_count + 1;
        match self.entries.get(&id.0) {
            Some(e) => Some(&e.lines),
            None => None,
        }
    }

    /// Cache `lines` (of `size_bytes` bytes) for `id` under `input_hash`,
    /// replacing any earlier entry. Hash 0 disables caching; a shape over the
    /// per-element cap is not stored (counted as a miss).
    pub fn insert(&mut self, id: ElementId, input_hash: u64, lines: L, size_bytes: usize)
        requires
            old(self).wf(),
            old(self).miss_total() < u64::MAX,
            old(self).memory_in_use() + PER_ELEMENT_SIZE_CAP <= usize::MAX,
        ensures
            final(self).wf(),
            final(self).frame_now() == old(self).frame_now(),
            final(self).memory_limit() == old(self).memory_limit(),
            final(self).hit_total() == old(self).hit_total(),
            input_hash == 0 ==> {
                &&& final(self).shapes() == old(self).shapes()
                &&& final(self).memory_in_use() == old(self).memory_in_use()
                &&& final(self).miss_total() == old(self).miss_total()
            },
            input_hash != 0 ==> final(self).miss_total() == old(self).miss_total() + 1,
            input_hash != 0 && size_bytes > PER_ELEMENT_SIZE_CAP ==> {
                &&& final(self).shapes() == old(self).shapes()
                &&& final(self).memory_in_use() == old(self).memory_in_use()
            },
            input_hash != 0 && size_bytes <= PER_ELEMENT_SIZE_CAP ==> {
                &&& final(self).shapes() == old(self).shapes().insert(
                    id.0,
                    CachedTextShape {
                        input_hash,
                        lines,
                        last_seen_frame: old(self).frame_now(),
                        size_bytes,
                    },
                )
                &&& final(self).memory_in_use() == memory_after_store(
                    old(self).shapes(),
                    old(self).memory_in_use(),
                    id.0,
                    size_bytes,
                )
            },
    {
        if input_hash == 0 {
            return ;
        }
        if size_bytes > PER_ELEMENT_SIZE_CAP {
            self.miss_count = self.miss_count + 1;
            return ;
        }
        self.store(id.0, input_hash, lines, size_bytes);
        self.miss_count = self.miss_count + 1;
    }

    /// Store a shape under `id`, releasing a replaced entry's bytes first.
    fn store(&mut self, id: u64, input_hash: u64, lines: L, size_bytes: usize)
        requires
            old(self).wf(),
            size_bytes <= PER_ELEMENT_SIZE_CAP,
            old(self).memory_in_use() + PER_ELEMENT_SIZE_CAP <= usize::MAX,
        ensures
            final(self).wf(),
            final(self).shapes() == old(self).shapes().insert(
                id,
                CachedTextShape {
                    input_hash,
                    lines,
                    last_seen_frame: old(self).frame_now(),
                    size_bytes,
                },
            ),
            final(self).memory_in_use() == memory_after_store(
                old(self).shapes(),
                old(self).memory_in_use(),
                id,
                size_bytes,
            ),
            final(self).frame_now() == old(self).frame_now(),
            final(self).memory_limit() == old(self).memory_limit(),
            final(self).hit_total() == old(self).hit_total(),
            final(self).miss_total() == old(self).miss_total(),
    {
        proof {
            if self.entries@.contains_key(id) {
                lemma_total_remove(self.entries@, id);
                lemma_total_nonneg(self.entries@.remove(id));
            }
        }
        match self.entries.get(&id) {
            Some(e) => {
                self.memory_used = self.memory_used.saturating_sub(e.size_bytes);
            },
            None => {},
        }
        self.memory_used = self.memory_used + size_bytes;
        let entry = CachedTextShape {
            input_hash,
            lines,
            last_seen_frame: self.current_frame,
            size_bytes,
        };
        self.entries.insert(id, entry);
        proof {
            lemma_total_insert(old(self).entries@, id, entry);
        }
    }

    /// Look up `id` under `input_hash` and hand the shape to `on_hit`: the
    /// cached one on a hit (marking it seen this frame), else a fresh one from
    /// `shape_fresh` (the payload and its size in bytes), which is then cached
    /// unless it exceeds the per-element cap. Hash 0 disables caching: the
    /// fresh shape is used and nothing is stored or counted.
    pub fn with_shape<S, F, R>(&mut self, id: ElementId, input_hash: u64, shape_fresh: S, on_hit: F) -> (r: R) where
        S: FnOnce() -> (L, usize),
        F: FnOnce(&L) -> R,

        requires
            old(self).wf(),
            call_requires(shape_fresh, ()),
            forall|l: &L| call_requires(on_hit, (l,)),
            old(self).hit_total() < u64::MAX,
            old(self).miss_total() < u64::MAX,
            old(self).memory_in_use() + PER_ELEMENT_SIZE_CAP <= usize::MAX,
        ensures
            final(self).wf(),
            final(self).frame_now() == old(self).frame_now(),
            final(self).memory_limit() == old(self).memory_limit(),
            input_hash == 0 ==> {
                &&& exists|fresh: (L, usize)|
                    call_ensures(shape_fresh, (), fresh) && #[trigger] call_ensures(on_hit, (&fresh.0,), r)
                &&& final(self).shapes() == old(self).shapes()
                &&& final(self).memory_in_use() == old(self).memory_in_use()
                &&& final(self).hit_total() == old(self).hit_total()
                &&& final(self).miss_total() == old(self).miss_total()
            },
            input_hash != 0 && old(self).shapes().contains_key(id.0) && old(self).shapes()[id.0].input_hash
                == input_hash ==> {
                &&& call_ensures(on_hit, (&old(self).shapes()[id.0].lines,), r)
                &&& final(self).shapes() == old(self).shapes().insert(
                    id.0,
                    CachedTextShape {
                        last_seen_frame: old(self).frame_now(),
                        ..old(self).shapes()[id.0]
                    },
                )
                &&& final(self).memory_in_use() == old(self).memory_in_use()
                &&& final(self).hit_total() == old(self).hit_total() + 1
                &&& final(self).miss_total() == old(self).miss_total()
            },
            input_hash != 0 && !(old(self).shapes().contains_key(id.0) && old(self).shapes()[id.0].input_hash
                == input_hash) ==> exists|fresh: (L, usize)|
                {
                    &&& call_ensures(shape_fresh, (), fresh)
                    &&& #[trigger] call_ensures(on_hit, (&fresh.0,), r)
                    &&& final(self).hit_total() == old(self).hit_total()
                    &&& final(self).miss_total() == old(self).miss_total() + 1
                    &&& if fresh.1 <= PER_ELEMENT_SIZE_CAP {
                        &&& final(self).shapes() == old(self).shapes().insert(
                            id.0,
                            CachedTextShape {
                                input_hash,
                                lines: fresh.0,
                                last_seen_frame: old(self).frame_now(),
                                size_bytes: fresh.1,
                            },
                        )
                        &&& final(self).memory_in_use() == memory_after_store(
                            old(self).shapes(),
                            old(self).memory_in_use(),
                            id.0,
                            fresh.1,
                        )
                    } else {
                        &&& final(self).shapes() == old(self).shapes()
                        &&& final(self).memory_in_use() == old(self).memory_in_use()
                    }
                },
    {
        if input_hash == 0 {
            let fresh = shape_fresh();
            let r = on_hit(&fresh.0);
            assert(call_ensures(shape_fresh, (), fresh) && call_ensures(on_hit, (&fresh.0,), r));
            return r;
        }
        if self.is_hit(id.0, input_hash) {
            self.touch(id.0);
            self.hit_count = self.hit_count + 1;
            let e = self.entries.get(&id.0).unwrap();
            return on_hit(&e.lines);
        }
        let fresh = shape_fresh();
        let ghost fresh_spec = fresh;
        let (lines, size_bytes) = fresh;
        let r = on_hit(&lines);
        if size_bytes <= PER_ELEMENT_SIZE_CAP {
            self.store(id.0, input_hash, lines, size_bytes);
        }
        self.miss_count = self.miss_count + 1;
        assert(call_ensures(shape_fresh, (), fresh_spec) && call_ensures(on_hit, (&fresh_spec.0,), r));
        r
    }

    /// Advance the frame counter (once per frame, after paint), wrapping.
    pub fn advance_frame(&mut self)
        requires
            old(self).wf(),
        ensures
            final(self).wf(),
            final(self).frame_now() == (if old(self).frame_now() == u64::MAX {
                0
            } else {
                old(self).frame_now() + 1
            }),
            final(self).shapes() == old(self).shapes(),
            final(self).memory_in_use() == old(self).memory_in_use(),
            final(self).memory_limit() == old(self).memory_limit(),
            final(self).hit_total() == old(self).hit_total(),
            final(self).miss_total() == old(self).miss_total(),
    {
        self.current_frame = self.current_frame.wrapping_add(1);
    }

    /// Drop the shapes not seen for two or more frames, releasing their
    /// bytes; then, if the memory cap is still exceeded, evict the least
    /// recently seen quarter of the rest, once.
    pub fn gc(&mut self)
        requires
            old(self).wf(),
        ensures
            final(self).wf(),
            final(self).frame_now() == old(self).frame_now(),
            final(self).memory_limit() == old(self).memory_limit(),
            final(self).hit_total() == old(self).hit_total(),
            final(self).miss_total() == old(self).miss_total(),
            ({
                let cutoff = sat_sub(old(self).frame_now() as int, 2) as u64;
                let kept = old(self).shapes().remove_keys(stale_keys(old(self).shapes(), cutoff));
                exists|stale: Seq<u64>|
                    {
                        &&& stale.no_duplicates()
                        &&& #[trigger] stale.to_set() == stale_keys(old(self).shapes(), cutoff)
                        &&& ({
                            let memory = sat_sub(
                                old(self).memory_in_use() as int,
                                size_total(old(self).shapes(), stale),
                            );
                            if memory <= old(self).memory_limit() {
                                &&& final(self).shapes() == kept
                                &&& final(self).memory_in_use() == memory
                            } else {
                                quarter_evicted(
                                    kept,
                                    memory,
                                    final(self).shapes(),
                                    final(self).memory_in_use() as int,
                                )
                            }
                        })
                    }
            }),
    {
        let cutoff = self.current_frame.saturating_sub(2);
        self.drop_stale(cutoff);
        if self.memory_used > self.memory_cap {
            self.lru_evict_quarter();
        }
    }

    /// Drop the shapes last seen before frame `cutoff`, releasing their bytes.
    fn drop_stale(&mut self, cutoff: u64)
        requires
            old(self).wf(),
        ensures
            final(self).wf(),
            final(self).shapes() == old(self).shapes().remove_keys(stale_keys(old(self).shapes(), cutoff)),
            exists|stale: Seq<u64>|
                {
                    &&& stale.no_duplicates()
                    &&& #[trigger] stale.to_set() == stale_keys(old(self).shapes(), cutoff)
                    &&& final(self).memory_in_use() == sat_sub(
                        old(self).memory_in_use() as int,
                        size_total(old(self).shapes(), stale),
                    )
                },
            final(self).frame_now() == old(self).frame_now(),
            final(self).memory_limit() == old(self).memory_limit(),
            final(self).hit_total() == old(self).hit_total(),
            final(self).miss_total() == old(self).miss_total(),
    {
        let ghost shapes0 = self.entries@;
        let ghost memory0 = self.memory_used as int;
        let ks = keys_of(&self.entries);
        let ghost mut removed: Seq<u64> = Seq::empty();
        let mut i: usize = 0;
        while i < ks.len()
            invariant
                i <= ks.len(),
                ks@.to_set() == shapes0.dom(),
                ks@.no_duplicates(),
                self.entries@ == shapes0.remove_keys(removed.to_set()),
                removed.no_duplicates(),
                forall|j: int| 0 <= j < removed.len() ==> #[trigger] stale_keys(shapes0, cutoff).contains(removed[j]),
                forall|j: int| 0 <= j < removed.len() ==> ks@.take(i as int).contains(#[trigger] removed[j]),
                forall|j: int|
                    0 <= j < i ==> (#[trigger] stale_keys(shapes0, cutoff).contains(ks@[j]) ==> removed.contains(ks@[j])),
                self.memory_used == sat_sub(memory0, size_total(shapes0, removed)),
                self.current_frame == old(self).current_frame,
                self.memory_cap == old(self).memory_cap,
                self.hit_count == old(self).hit_count,
                self.miss_count == old(self).miss_count,
            decreases ks.len() - i,
        {
            let k = ks[i];
            let mut stale_size: Option<usize> = None;
            match self.entries.get(&k) {
                Some(e) => {
                    if e.last_seen_frame < cutoff {
                        stale_size = Some(e.size_bytes);
                    }
                },
                None => {},
            }
            proof {
                assert(ks@.to_set().contains(ks@[i as int]));
                assert(!removed.contains(k)) by {
                    if removed.contains(k) {
                        let j = choose|j: int| 0 <= j < removed.len() && removed[j] == k;
                        assert(ks@.take(i as int).contains(removed[j]));
                        let m = choose|m: int| 0 <= m < i && ks@.take(i as int)[m] == k;
                        assert(ks@[m] == ks@[i as int]);
                    }
                }
                assert(self.entries@.contains_key(k));
            }
            match stale_size {
                Some(size) => {
                    self.entries.remove(&k);
                    self.memory_used = self.memory_used.saturating_sub(size);
                    proof {
                        lemma_size_total_nonneg(shapes0, removed);
                        lemma_sat_sub_twice(memory0, size_total(shapes0, removed), size as int);
                        let new_removed = removed.push(k);
                        assert(new_removed.drop_last() =~= removed);
                        removed.lemma_push_to_set_commute(k);
                        assert forall|x: u64| removed.contains(x) implies new_removed.contains(x) by {
                            let m = choose|m: int| 0 <= m < removed.len() && removed[m] == x;
                            assert(new_removed[m] == x);
                        }
                        assert(new_removed[removed.len() as int] == k);
                        assert(self.entries@ =~= shapes0.remove_keys(new_removed.to_set()));
                        removed = new_removed;
                    }
                },
                None => {},
            }
            proof {
                assert forall|j: int| 0 <= j < removed.len() implies ks@.take(i + 1).contains(
                    #[trigger] removed[j],
                ) by {
                    if removed[j] != k {
                        let m = choose|m: int| 0 <= m < i && ks@.take(i as int)[m] == removed[j];
                        assert(ks@.take(i + 1)[m] == removed[j]);
                    } else {
                        assert(ks@.take(i + 1)[i as int] == k);
                    }
                }
            }
            i = i + 1;
        }
        proof {
            lemma_total_remove_keys(shapes0, removed);
            lemma_total_nonneg(self.entries@);
            assert(removed.to_set() =~= stale_keys(shapes0, cutoff)) by {
                assert forall|k: u64| stale_keys(shapes0, cutoff).contains(k) implies removed.to_set().contains(k) by {
                    assert(ks@.to_set().contains(k));
                    let j = choose|j: int| 0 <= j < ks@.len() && ks@[j] == k;
                    assert(stale_keys(shapes0, cutoff).contains(ks@[j]));
                }
            }
        }
    }

    /// Evict the least recently seen quarter (rounded up) of the shapes,
    /// releasing their bytes.
    fn lru_evict_quarter(&mut self)
        requires
            old(self).wf(),
        ensures
            final(self).wf(),
            quarter_evicted(
                old(self).shapes(),
                old(self).memory_in_use() as int,
                final(self).shapes(),
                final(self).memory_in_use() as int,
            ),
            final(self).frame_now() == old(self).frame_now(),
            final(self).memory_limit() == old(self).memory_limit(),
            final(self).hit_total() == old(self).hit_total(),
            final(self).miss_total() == old(self).miss_total(),
    {
        let ghost shapes0 = self.entries@;
        let ghost memory0 = self.memory_used as int;
        let ks = keys_of(&self.entries);
        let mut cand: Vec<(u64, u64, usize)> = Vec::new();
        for i in 0..ks.len()
            invariant
                ks@.to_set() == shapes0.dom(),
                self.entries@ == shapes0,
                cand@.len() == i,
                forall|j: int|
                    0 <= j < i ==> {
                        &&& (#[trigger] cand@[j]).0 == ks@[j]
                        &&& cand@[j].1 == shapes0[ks@[j]].last_seen_frame
                        &&& cand@[j].2 == shapes0[ks@[j]].size_bytes
                    },
        {
            let k = ks[i];
            assert(ks@.to_set().contains(ks@[i as int]));
            let e = self.entries.get(&k).unwrap();
            cand.push((k, e.last_seen_frame, e.size_bytes));
        }
        proof {
            ks@.unique_seq_to_set();
        }
        let n = cand.len();
        let evict_count: usize = if n % 4 == 0 {
            n / 4
        } else {
            n / 4 + 1
        };
        let ghost mut ev: Seq<u64> = Seq::empty();
        assert forall|k: u64| shapes0.contains_key(k) && !ev.contains(k) implies exists|i: int|
            0 <= i < cand@.len() && (#[trigger] cand@[i]).0 == k by {
            assert(ks@.to_set().contains(k));
            let j = choose|j: int| 0 <= j < ks@.len() && ks@[j] == k;
            assert(cand@[j].0 == k);
        }
        assert(self.entries@ =~= shapes0.remove_keys(ev.to_set()));
        assert forall|a: int, b: int| 0 <= a < b < cand@.len() implies (#[trigger] cand@[a]).0
            != (#[trigger] cand@[b]).0 by {
            assert(ks@[a] != ks@[b]);
        }
        let mut step: usize = 0;
        while step < evict_count
            invariant
                n == shapes0.len(),
                evict_count == (shapes0.len() + 3) / 4,
                evict_count <= n,
                step <= evict_count,
                ev.len() == step,
                cand@.len() == n - step,
                ev.no_duplicates(),
                forall|j: int| 0 <= j < ev.len() ==> shapes0.contains_key(#[trigger] ev[j]),
                forall|i: int|
                    0 <= i < cand@.len() ==> {
                        &&& shapes0.contains_key((#[trigger] cand@[i]).0)
                        &&& cand@[i].1 == shapes0[cand@[i].0].last_seen_frame
                        &&& cand@[i].2 == shapes0[cand@[i].0].size_bytes
                        &&& !ev.contains(cand@[i].0)
                    },
                forall|k: u64|
                    shapes0.contains_key(k) && !ev.contains(k) ==> exists|i: int|
                        0 <= i < cand@.len() && (#[trigger] cand@[i]).0 == k,
                forall|a: int, b: int|
                    0 <= a < b < cand@.len() ==> (#[trigger] cand@[a]).0 != (#[trigger] cand@[b]).0,
                forall|j: int, i: int|
                    0 <= j < ev.len() && 0 <= i < cand@.len() ==> shapes0[#[trigger] ev[j]].last_seen_frame
                        <= (#[trigger] cand@[i]).1,
                self.entries@ == shapes0.remove_keys(ev.to_set()),
                self.memory_used == sat_sub(memory0, size_total(shapes0, ev)),
                self.current_frame == old(self).current_frame,
                self.memory_cap == old(self).memory_cap,
                self.hit_count == old(self).hit_count,
                self.miss_count == old(self).miss_count,
            decreases evict_count - step,
        {
            let mut best: usize = 0;
            let mut j: usize = 1;
            while j < cand.len()
                invariant
                    best < cand@.len(),
                    1 <= j <= cand@.len(),
                    forall|i: int| 0 <= i < j ==> cand@[best as int].1 <= (#[trigger] cand@[i]).1,
                decreases cand@.len() - j,
            {
                if cand[j].1 < cand[best].1 {
                    best = j;
                }
                j = j + 1;
            }
            let ghost cand_before = cand@;
            let (id, _frame, size) = cand.remove(best);
            self.entries.remove(&id);
            self.memory_used = self.memory_used.saturating_sub(size);
            proof {
                lemma_size_total_nonneg(shapes0, ev);
                lemma_sat_sub_twice(memory0, size_total(shapes0, ev), size as int);
                let new_ev = ev.push(id);
                assert(new_ev.drop_last() =~= ev);
                ev.lemma_push_to_set_commute(id);
                assert(self.entries@ =~= shapes0.remove_keys(new_ev.to_set()));
                assert forall|k: u64| shapes0.contains_key(k) && !new_ev.contains(k) implies exists|i: int|
                    0 <= i < cand@.len() && (#[trigger] cand@[i]).0 == k by {
                    assert(!ev.contains(k)) by {
                        if ev.contains(k) {
                            let m = choose|m: int| 0 <= m < ev.len() && ev[m] == k;
                            assert(new_ev[m] == k);
                        }
                    }
                    assert(k != id) by {
                        assert(new_ev[ev.len() as int] == id);
                    }
                    let i = choose|i: int| 0 <= i < cand_before.len() && (#[trigger] cand_before[i]).0 == k;
                    if i < best {
                        assert(cand@[i] == cand_before[i]);
                    } else {
                        assert(cand@[i - 1] == cand_before[i]);
                    }
                }
                assert forall|a: int, b: int|
                    0 <= a < b < cand@.len() implies (#[trigger] cand@[a]).0 != (#[trigger] cand@[b]).0 by {
                    let sa = if a < best { a } else { a + 1 };
                    let sb = if b < best { b } else { b + 1 };
                    assert(cand@[a] == cand_before[sa]);
                    assert(cand@[b] == cand_before[sb]);
                }
                assert forall|i: int| 0 <= i < cand@.len() implies !new_ev.contains((#[trigger] cand@[i]).0) by {
                    let src = if i < best { i } else { i + 1 };
                    assert(cand@[i] == cand_before[src]);
                    assert(cand_before[best as int].0 == id);
                    if src < best {
                        assert(cand_before[src].0 != cand_before[best as int].0);
                    } else {
                        assert(cand_before[best as int].0 != cand_before[src].0);
                    }
                    assert(!ev.contains(cand_before[src].0));
                    if new_ev.contains(cand@[i].0) {
                        let m = choose|m: int| 0 <= m < new_ev.len() && new_ev[m] == cand@[i].0;
                        if m < ev.len() {
                            assert(ev[m] == new_ev[m]);
                        }
                    }
                }
                assert forall|jj: int, i: int|
                    0 <= jj < new_ev.len() && 0 <= i < cand@.len() implies shapes0[#[trigger] new_ev[jj]].last_seen_frame
                    <= (#[trigger] cand@[i]).1 by {
                    let src = if i < best { i } else { i + 1 };
                    assert(cand@[i] == cand_before[src]);
                    if jj < ev.len() {
                        assert(new_ev[jj] == ev[jj]);
                    }
                }
                assert forall|a: int, b: int| 0 <= a < b < new_ev.len() implies new_ev[a] != new_ev[b] by {
                    if b == ev.len() {
                        assert(ev.contains(new_ev[a]) ==> !ev.contains(id));
                        assert(ev[a] == new_ev[a]);
                    }
                }
                ev = new_ev;
            }
            step = step + 1;
        }
        proof {
            assert(oldest_quarter(shapes0, ev));
            lemma_total_remove_keys(shapes0, ev);
            lemma_total_nonneg(self.entries@);
        }
    }

    /// Drop every cached shape (their atlas references are stale after a
    /// device loss). The frame counter and the metrics are kept.
    pub fn clear(&mut self)
        ensures
            final(self).wf(),
            final(self).shapes() == Map::<u64, CachedTextShape<L>>::empty(),
            final(self).memory_in_use() == 0,
            final(self).frame_now() == old(self).frame_now(),
            final(self).memory_limit() == old(self).memory_limit(),
            final(self).hit_total() == old(self).hit_total(),
            final(self).miss_total() == old(self).miss_total(),
    {
        self.entries.clear();
        self.memory_used = 0;
    }

    /// The frame counter.
    pub fn current_frame(&self) -> (r: u64)
        ensures
            r == self.frame_now(),
    {
        self.current_frame
    }

    /// Bytes accounted to cached shapes.
    pub fn memory_used(&self) -> (r: usize)
        ensures
            r == self.memory_in_use(),
    {
        self.memory_used
    }

    /// Hits so far.
    pub fn hit_count(&self) -> (r: u64)
        ensures
            r == self.hit_total(),
    {
        self.hit_count
    }

    /// Misses so far.
    pub fn miss_count(&self) -> (r: u64)
        ensures
            r == self.miss_total(),
    {
        self.miss_count
    }

    /// Number of cached shapes.
    pub fn len(&self) -> (r: usize)
        ensures
            r == self.shapes().len(),
    {
        self.entries.len()
    }

    /// Whether nothing is cached.
    pub fn is_empty(&self) -> (r: bool)
        ensures
            r == (self.shapes().len() == 0),
    {
        self.entries.len() == 0
    }
}

impl<L> Default for TextShapingCache<L> {
    fn default() -> (r: TextShapingCache<L>)
        ensures
            r.wf(),
            r.shapes() == Map::<u64, CachedTextShape<L>>::empty(),
            r.frame_now() == 0,
            r.memory_in_use() == 0,
            r.memory_limit() == DEFAULT_MEMORY_CAP,
            r.hit_total() == 0,
            r.miss_total() == 0,
    {
        TextShapingCache::new()
    }
}

/// The memory a well-formed cache accounts is exactly the total size of the
/// shapes it holds.
pub proof fn law_memory_used_is_total<L>(cache: &TextShapingCache<L>)
    requires
        cache.wf(),
    ensures
        cache.memory_in_use() == total_bytes(cache.shapes()),
{
}

/// What `insert` stores under a nonzero hash and within the per-element cap
/// is what a later `get` with the same hash finds: the entry it leaves for
/// `id` carries that hash and those lines.
pub proof fn law_get_finds_inserted<L>(
    shapes: Map<u64, CachedTextShape<L>>,
    frame: u64,
    id: ElementId,
    input_hash: u64,
    lines: L,
    size_bytes: usize,
)
    requires
        input_hash != 0,
        size_bytes <= PER_ELEMENT_SIZE_CAP,
    ensures
        ({
            let after = shapes.insert(
                id.0,
                CachedTextShape { input_hash, lines, last_seen_frame: frame, size_bytes },
            );
            &&& after.contains_key(id.0)
            &&& after[id.0].input_hash == input_hash
            &&& after[id.0].lines == lines
        }),
{
}

} // verus!
