//! Image cache bookkeeping for atlas uploads, keyed by content hash and size.
//!
//! Each entry keeps the image's CPU-side pixels and, while it has one, the
//! atlas slot the image was uploaded to. The host owns the atlas: for each
//! draw it asks whether the cached slot is still live, lets
//! [`ImageCache::begin_upload`] decide between a cache hit, a re-upload from
//! the kept pixels and a first upload, and reports the slot it got (or an
//! out-of-memory failure) through [`ImageCache::finish_upload`]. On device
//! loss [`ImageCache::clear_allocations`] forgets every slot and keeps every
//! image's pixels.
//!
//! The key is the triple (content hash, width, height): the dimensions guard
//! against two images whose 64-bit hashes collide. The entries are kept in
//! parallel vectors with no key twice.
use vstd::prelude::*;

verus! {

/// A slot the atlas handed out for an image: its id, and the token that tells
/// a live slot from one the atlas has since evicted and handed out again.
#[derive(Clone, Copy, Debug, PartialEq, Eq, Structural)]
pub struct AtlasSlot {
    pub alloc_id: u64,
    pub token: u64,
}

/// What the host does for one image draw.
#[derive(Clone, Copy, Debug, PartialEq, Eq, Structural)]
pub enum UploadStep {
    /// The cached slot is live: touch it and draw from it.
    Hit(AtlasSlot),
    /// The image is cached without a live slot: allocate a slot and upload
    /// the kept pixels ([`ImageCache::pixels`]).
    Reupload,
    /// The image is not cached: allocate a slot and upload the given pixels.
    Insert,
}

/// The cache as a map from (content hash, width, height) to the kept pixels
/// and the atlas slot, if any; and whether an out-of-memory failure has been
/// reported since the cache was made or its slots were last cleared.
pub struct ImageCacheView {
    pub entries: Map<(u64, u32, u32), (Seq<u8>, Option<AtlasSlot>)>,
    pub oom_warned: bool,
}

/// Uploaded images with their kept pixels and atlas slots.
pub struct ImageCache {
    keys: Vec<(u64, u32, u32)>,
    pixels: Vec<Vec<u8>>,
    allocs: Vec<Option<AtlasSlot>>,
    oom_warned: bool,
}

/// The map that a list of rows (key, pixels, slot) describes; a later row
/// for a key wins.
pub open spec fn rows_map(rows: Seq<((u64, u32, u32), Seq<u8>, Option<AtlasSlot>)>) -> Map<
    (u64, u32, u32),
    (Seq<u8>, Option<AtlasSlot>),
>
    decreases rows.len(),
{
    if rows.len() == 0 {
        Map::empty()
    } else {
        rows_map(rows.drop_last()).insert(rows.last().0, (rows.last().1, rows.last().2))
    }
}

/// No key occurs in two rows.
pub open spec fn keys_distinct(rows: Seq<((u64, u32, u32), Seq<u8>, Option<AtlasSlot>)>) -> bool {
    forall|i: int, j: int| 0 <= i < j < rows.len() ==> #[trigger] rows[i].0 != #[trigger] rows[j].0
}

/// The rows with every slot forgotten.
pub open spec fn rows_cleared(rows: Seq<((u64, u32, u32), Seq<u8>, Option<AtlasSlot>)>) -> Seq<
    ((u64, u32, u32), Seq<u8>, Option<AtlasSlot>),
> {
    rows.map_values(|r: ((u64, u32, u32), Seq<u8>, Option<AtlasSlot>)| (r.0, r.1, None::<AtlasSlot>))
}

/// A key is in the map exactly when some row has it.
proof fn lemma_rows_dom(rows: Seq<((u64, u32, u32), Seq<u8>, Option<AtlasSlot>)>, k: (u64, u32, u32))
    ensures
        rows_map(rows).contains_key(k) <==> exists|i: int| 0 <= i < rows.len() && #[trigger] rows[i].0 == k,
    decreases rows.len(),
{
    if rows.len() > 0 {
        let init = rows.drop_last();
        lemma_rows_dom(init, k);
        if exists|i: int| 0 <= i < init.len() && #[trigger] init[i].0 == k {
            let i = choose|i: int| 0 <= i < init.len() && #[trigger] init[i].0 == k;
            assert(rows[i].0 == k);
        }
        if exists|i: int| 0 <= i < rows.len() && #[trigger] rows[i].0 == k {
            let i = choose|i: int| 0 <= i < rows.len() && #[trigger] rows[i].0 == k;
            if i < init.len() {
                assert(init[i].0 == k);
            }
        }
    }
}

/// Dropping the last row keeps the keys distinct.
proof fn lemma_distinct_init(rows: Seq<((u64, u32, u32), Seq<u8>, Option<AtlasSlot>)>)
    requires
        keys_distinct(rows),
        rows.len() > 0,
    ensures
        keys_distinct(rows.drop_last()),
{
    let init = rows.drop_last();
    assert forall|i: int, j: int| 0 <= i < j < init.len() implies #[trigger] init[i].0 != #[trigger] init[j].0 by {
        assert(init[i] == rows[i]);
        assert(init[j] == rows[j]);
    }
}

/// With no key twice, the map holds each row's pixels and slot at its key.
proof fn lemma_rows_at(rows: Seq<((u64, u32, u32), Seq<u8>, Option<AtlasSlot>)>, i: int)
    requires
        keys_distinct(rows),
        0 <= i < rows.len(),
    ensures
        rows_map(rows).contains_key(rows[i].0),
        rows_map(rows)[rows[i].0] == (rows[i].1, rows[i].2),
    decreases rows.len(),
{
    if i < rows.len() - 1 {
        let init = rows.drop_last();
        assert(init[i] == rows[i]);
        lemma_distinct_init(rows);
        lemma_rows_at(init, i);
        assert(rows[i].0 != rows[rows.len() - 1].0);
    }
}

/// Replacing one row's pixels and slot updates the map at that row's key.
proof fn lemma_rows_update(
    rows: Seq<((u64, u32, u32), Seq<u8>, Option<AtlasSlot>)>,
    i: int,
    v: (Seq<u8>, Option<AtlasSlot>),
)
    requires
        keys_distinct(rows),
        0 <= i < rows.len(),
    ensures
        rows_map(rows.update(i, (rows[i].0, v.0, v.1))) == rows_map(rows).insert(rows[i].0, v),
    decreases rows.len(),
{
    let upd = rows.update(i, (rows[i].0, v.0, v.1));
    let init = rows.drop_last();
    if i == rows.len() - 1 {
        assert(upd.drop_last() =~= init);
        assert(rows_map(upd) =~= rows_map(rows).insert(rows[i].0, v));
    } else {
        assert(upd.drop_last() =~= init.update(i, (init[i].0, v.0, v.1)));
        lemma_distinct_init(rows);
        lemma_rows_update(init, i, v);
        assert(rows[i].0 != rows[rows.len() - 1].0);
        assert(rows_map(upd) =~= rows_map(rows).insert(rows[i].0, v));
    }
}

/// Forgetting every slot keeps the keys and pixels and leaves no slot.
proof fn lemma_rows_cleared(rows: Seq<((u64, u32, u32), Seq<u8>, Option<AtlasSlot>)>)
    ensures
        rows_map(rows_cleared(rows)) == rows_map(rows).map_values(
            |v: (Seq<u8>, Option<AtlasSlot>)| (v.0, None::<AtlasSlot>),
        ),
    decreases rows.len(),
{
    if rows.len() > 0 {
        let init = rows.drop_last();
        assert(rows_cleared(rows).drop_last() =~= rows_cleared(init));
        lemma_rows_cleared(init);
        assert(rows_map(rows_cleared(rows)) =~= rows_map(rows).map_values(
            |v: (Seq<u8>, Option<AtlasSlot>)| (v.0, None::<AtlasSlot>),
        ));
    } else {
        assert(rows_map(rows_cleared(rows)) =~= rows_map(rows).map_values(
            |v: (Seq<u8>, Option<AtlasSlot>)| (v.0, None::<AtlasSlot>),
        ));
    }
}

impl View for ImageCache {
    type V = ImageCacheView;

    closed spec fn view(&self) -> ImageCacheView {
        ImageCacheView { entries: rows_map(self.rows()), oom_warned: self.oom_warned }
    }
}

impl ImageCache {
    /// The entries as rows (key, pixels, slot), in insertion order.
    pub closed spec fn rows(&self) -> Seq<((u64, u32, u32), Seq<u8>, Option<AtlasSlot>)> {
        Seq::new(self.keys@.len(), |i: int| (self.keys@[i], self.pixels@[i]@, self.allocs@[i]))
    }

    /// The three vectors line up and no key occurs twice.
    pub closed spec fn wf(&self) -> bool {
        &&& self.pixels.len() == self.keys.len()
        &&& self.allocs.len() == self.keys.len()
        &&& keys_distinct(self.rows())
    }


    /// An empty cache.
    pub fn new() -> (c: ImageCache)
        ensures
            c.wf(),
            c@.entries == Map::<(u64, u32, u32), (Seq<u8>, Option<AtlasSlot>)>::empty(),
            !c@.oom_warned,
    {
        let c = ImageCache { keys: Vec::new(), pixels: Vec::new(), allocs: Vec::new(), oom_warned: false };
        assert(c.rows() =~= Seq::empty());
        c
    }

    /// Number of cached images.
    pub fn len(&self) -> (n: usize)
        requires
            self.wf(),
        ensures
            n == self@.entries.len(),
    {
        proof {
            self.lemma_len();
        }
        self.keys.len()
    }

    proof fn lemma_len(&self)
        requires
            self.wf(),
        ensures
            rows_map(self.rows()).len() == self.keys.len(),
            rows_map(self.rows()).dom().finite(),
    {
        lemma_rows_len(self.rows());
    }

    /// Position of `key`, if cached.
    fn find(&self, key: (u64, u32, u32)) -> (r: Option<usize>)
        requires
            self.wf(),
        ensures
            match r {
                Some(i) => i < self.keys.len() && self.keys@[i as int] == key,
                None => !self@.entries.contains_key(key),
            },
    {
        let mut i: usize = 0;
        while i < self.keys.len()
            invariant
                i <= self.keys.len(),
                forall|j: int| 0 <= j < i ==> self.keys@[j] != key,
            decreases self.keys.len() - i,
        {
            let k = self.keys[i];
            if k.0 == key.0 && k.1 == key.1 && k.2 == key.2 {
                return Some(i);
            }
            i = i + 1;
        }
        proof {
            lemma_rows_dom(self.rows(), key);
            assert forall|j: int| 0 <= j < self.rows().len() implies #[trigger] self.rows()[j].0 != key by {
                assert(self.rows()[j].0 == self.keys@[j]);
            }
        }
        None
    }

    /// The slot cached for `key`, if the image is cached and has one: the host
    /// asks the atlas whether it is still live before [`Self::begin_upload`].
    pub fn cached_slot(&self, key: (u64, u32, u32)) -> (r: Option<AtlasSlot>)
        requires
            self.wf(),
        ensures
            r == (if self@.entries.contains_key(key) {
                self@.entries[key].1
            } else {
                None
            }),
    {
        match self.find(key) {
            Some(i) => {
                proof {
                    lemma_rows_at(self.rows(), i as int);
                }
                self.allocs[i]
            },
            None => None,
        }
    }

    /// The kept pixels of `key`, if cached: what a re-upload sends.
    pub fn pixels(&self, key: (u64, u32, u32)) -> (r: Option<&Vec<u8>>)
        requires
            self.wf(),
        ensures
            match r {
                Some(p) => self@.entries.contains_key(key) && p@ == self@.entries[key].0,
                None => !self@.entries.contains_key(key),
            },
    {
        match self.find(key) {
            Some(i) => {
                proof {
                    lemma_rows_at(self.rows(), i as int);
                }
                Some(&self.pixels[i])
            },
            None => None,
        }
    }

    /// Decide what one draw of image `key` needs, `slot_live` being the
    /// atlas's answer for the slot [`Self::cached_slot`] gave (ignored when
    /// there is none):
    /// - cached with a live slot: a hit on that slot, nothing changes;
    /// - cached otherwise (the slot was lost with the device, or evicted and
    ///   its id recycled): the stale slot is dropped and the image re-uploaded
    ///   from its kept pixels;
    /// - not cached: a first upload.
    pub fn begin_upload(&mut self, key: (u64, u32, u32), slot_live: bool) -> (r: UploadStep)
        requires
            old(self).wf(),
        ensures
            final(self).wf(),
            final(self)@.oom_warned == old(self)@.oom_warned,
            if !old(self)@.entries.contains_key(key) {
                r == UploadStep::Insert && final(self)@ == old(self)@
            } else if slot_live && old(self)@.entries[key].1 is Some {
                r == UploadStep::Hit(old(self)@.entries[key].1->0) && final(self)@ == old(self)@
            } else {
                &&& r == UploadStep::Reupload
                &&& final(self)@.entries == old(self)@.entries.insert(key, (old(self)@.entries[key].0, None))
            },
    {
        match self.find(key) {
            Some(i) => {
                proof {
                    lemma_rows_at(self.rows(), i as int);
                }
                match self.allocs[i] {
                    Some(s) => {
                        if slot_live {
                            return UploadStep::Hit(s);
                        }
                    },
                    None => {},
                }
                let ghost rows0 = self.rows();
                self.allocs.set(i, None);
                proof {
                    assert(self.rows() =~= rows0.update(i as int, (rows0[i as int].0, rows0[i as int].1, None)));
                    lemma_rows_update(rows0, i as int, (rows0[i as int].1, None));
                    assert forall|a: int, b: int| 0 <= a < b < self.rows().len() implies #[trigger] self.rows()[a].0
                        != #[trigger] self.rows()[b].0 by {
                        assert(self.rows()[a].0 == rows0[a].0);
                        assert(self.rows()[b].0 == rows0[b].0);
                    }
                }
                UploadStep::Reupload
            },
            None => UploadStep::Insert,
        }
    }

    /// Record the outcome of the upload that [`Self::begin_upload`] asked for.
    /// With a slot, the image's entry takes it (a new entry keeps `pixels`; an
    /// existing one keeps the pixels it had). Without one (the atlas is out
    /// of memory) nothing is cached, and the result says whether to report the
    /// failure: only the first since the cache was made or last cleared is.
    pub fn finish_upload(&mut self, key: (u64, u32, u32), pixels: Vec<u8>, slot: Option<AtlasSlot>) -> (report: bool)
        requires
            old(self).wf(),
        ensures
            final(self).wf(),
            match slot {
                Some(s) => {
                    &&& !report
                    &&& final(self)@.oom_warned == old(self)@.oom_warned
                    &&& final(self)@.entries == old(self)@.entries.insert(
                        key,
                        (
                            if old(self)@.entries.contains_key(key) {
                                old(self)@.entries[key].0
                            } else {
                                pixels@
                            },
                            Some(s),
                        ),
                    )
                },
                None => {
                    &&& report == !old(self)@.oom_warned
                    &&& final(self)@.oom_warned
                    &&& final(self)@.entries == old(self)@.entries
                },
            },
    {
        match slot {
            Some(s) => {
                let ghost rows0 = self.rows();
                match self.find(key) {
                    Some(i) => {
                        proof {
                            lemma_rows_at(rows0, i as int);
                        }
                        self.allocs.set(i, Some(s));
                        proof {
                            assert(self.rows() =~= rows0.update(
                                i as int,
                                (rows0[i as int].0, rows0[i as int].1, Some(s)),
                            ));
                            lemma_rows_update(rows0, i as int, (rows0[i as int].1, Some(s)));
                            assert forall|a: int, b: int| 0 <= a < b < self.rows().len() implies #[trigger] self.rows()[a].0
                                != #[trigger] self.rows()[b].0 by {
                                assert(self.rows()[a].0 == rows0[a].0);
                                assert(self.rows()[b].0 == rows0[b].0);
                            }
                        }
                    },
                    None => {
                        let ghost px = pixels@;
                        self.keys.push(key);
                        self.pixels.push(pixels);
                        self.allocs.push(Some(s));
                        proof {
                            assert(self.rows() =~= rows0.push((key, px, Some(s))));
                            assert(self.rows().drop_last() =~= rows0);
                            lemma_rows_dom(rows0, key);
                            assert forall|a: int, b: int| 0 <= a < b < self.rows().len() implies #[trigger] self.rows()[a].0
                                != #[trigger] self.rows()[b].0 by {
                                assert(self.rows()[a] == rows0[a]);
                                if b < rows0.len() {
                                    assert(self.rows()[b] == rows0[b]);
                                }
                            }
                        }
                    },
                }
                false
            },
            None => {
                let report = !self.oom_warned;
                self.oom_warned = true;
                report
            },
        }
    }

    /// Forget every atlas slot (the device was lost), keeping every image's
    /// pixels for re-upload, and report the next out-of-memory failure again.
    pub fn clear_allocations(&mut self)
        requires
            old(self).wf(),
        ensures
            final(self).wf(),
            !final(self)@.oom_warned,
            final(self)@.entries == old(self)@.entries.map_values(
                |v: (Seq<u8>, Option<AtlasSlot>)| (v.0, None::<AtlasSlot>),
            ),
    {
        let ghost rows0 = self.rows();
        let mut i: usize = 0;
        while i < self.allocs.len()
            invariant
                i <= self.allocs.len(),
                self.allocs.len() == self.keys.len(),
                self.pixels.len() == self.keys.len(),
                rows0.len() == self.keys.len(),
                forall|j: int|
                    0 <= j < self.keys.len() ==> #[trigger] self.rows()[j] == (if j < i {
                        (rows0[j].0, rows0[j].1, None::<AtlasSlot>)
                    } else {
                        rows0[j]
                    }),
            decreases self.allocs.len() - i,
        {
            let ghost before = self.rows();
            self.allocs.set(i, None);
            proof {
                assert forall|j: int| 0 <= j < self.keys.len() implies #[trigger] self.rows()[j] == (if j < i
                    + 1 {
                    (rows0[j].0, rows0[j].1, None::<AtlasSlot>)
                } else {
                    rows0[j]
                }) by {
                    assert(before[j] == self.rows()[j] || j == i);
                }
            }
            i = i + 1;
        }
        proof {
            assert forall|j: int| 0 <= j < self.rows().len() implies #[trigger] self.rows()[j] == rows_cleared(
                rows0,
            )[j] by {
                assert(self.rows()[j] == (rows0[j].0, rows0[j].1, None::<AtlasSlot>));
            }
            assert(self.rows() =~= rows_cleared(rows0));
            lemma_rows_cleared(rows0);
            assert forall|a: int, b: int| 0 <= a < b < self.rows().len() implies #[trigger] self.rows()[a].0
                != #[trigger] self.rows()[b].0 by {
                assert(self.rows()[a].0 == rows0[a].0);
                assert(self.rows()[b].0 == rows0[b].0);
            }
        }
        self.oom_warned = false;
    }
}

/// With no key twice, the map has one key per row.
proof fn lemma_rows_len(rows: Seq<((u64, u32, u32), Seq<u8>, Option<AtlasSlot>)>)
    requires
        keys_distinct(rows),
    ensures
        rows_map(rows).dom().finite(),
        rows_map(rows).len() == rows.len(),
    decreases rows.len(),
{
    if rows.len() > 0 {
        let init = rows.drop_last();
        lemma_distinct_init(rows);
        lemma_rows_len(init);
        lemma_rows_dom(init, rows.last().0);
        if rows_map(init).contains_key(rows.last().0) {
            let i = choose|i: int| 0 <= i < init.len() && #[trigger] init[i].0 == rows.last().0;
            assert(rows[i].0 == rows[rows.len() - 1].0);
        }
    }
}

} // verus!
