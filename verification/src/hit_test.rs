//! Hit testing for pointer events.
//!
//! Elements register rectangular hit regions during prepaint, in painter's
//! order. A query walks the list back to front (last registered = topmost)
//! and asks of each region whether its bounds contain the pointer. The
//! containment test is the caller's (`contains`), so the list is generic over
//! the bounds type.
use vstd::prelude::*;

use crate::types::ElementId;

verus! {

/// Mouse cursor shown over a hit region.
#[derive(Copy, Clone, Debug, PartialEq, Eq, Structural)]
pub enum CursorStyle {
    /// Default arrow.
    Arrow,
    /// Pointing hand (clickable elements).
    Pointer,
    /// Text I-beam.
    Text,
    /// Open hand (draggable elements).
    Grab,
    /// Closed hand (while dragging).
    Grabbing,
    /// Vertical resize.
    ResizeNS,
    /// Horizontal resize.
    ResizeEW,
    /// Diagonal resize (NW-SE).
    ResizeNWSE,
    /// Diagonal resize (NE-SW).
    ResizeNESW,
    /// Not allowed.
    NotAllowed,
    /// Crosshair.
    Crosshair,
    /// Move.
    Move,
}

impl Default for CursorStyle {
    fn default() -> (r: CursorStyle)
        ensures
            r == CursorStyle::Arrow,
    {
        CursorStyle::Arrow
    }
}

/// A rectangular region that can receive pointer events.
#[derive(Clone, Debug)]
pub struct HitRegion<B> {
    /// Stable element identity.
    pub element_id: ElementId,
    /// Screen bounds.
    pub bounds: B,
    /// Z-order index (higher = closer to the viewer), assigned by registration order.
    pub z_index: u32,
    /// Whether this region blocks hits to the regions behind it.
    pub is_opaque: bool,
    /// Cursor shown while hovering this region.
    pub cursor: CursorStyle,
}

impl<B> HitRegion<B> {
    /// An opaque region with the arrow cursor.
    pub fn new(element_id: ElementId, bounds: B, z_index: u32) -> (r: HitRegion<B>)
        ensures
            r == (HitRegion {
                element_id,
                bounds,
                z_index,
                is_opaque: true,
                cursor: CursorStyle::Arrow,
            }),
    {
        HitRegion { element_id, bounds, z_index, is_opaque: true, cursor: CursorStyle::Arrow }
    }

    /// This region with cursor `cursor`.
    pub fn with_cursor(self, cursor: CursorStyle) -> (r: HitRegion<B>)
        ensures
            r == (HitRegion { cursor, ..self }),
    {
        HitRegion { cursor, ..self }
    }

    /// This region, blocking the regions behind it exactly when `opaque`.
    pub fn with_opaque(self, opaque: bool) -> (r: HitRegion<B>)
        ensures
            r == (HitRegion { is_opaque: opaque, ..self }),
    {
        HitRegion { is_opaque: opaque, ..self }
    }
}

/// Result of a hit query.
#[derive(Clone, Copy, Debug, PartialEq, Eq, Structural)]
pub struct HitTestResult {
    /// The hit element.
    pub element_id: ElementId,
    /// Cursor to show.
    pub cursor: CursorStyle,
}

/// The query result that region `r` stands for.
pub open spec fn result_of<B>(r: HitRegion<B>) -> HitTestResult {
    HitTestResult { element_id: r.element_id, cursor: r.cursor }
}

/// Scanning `regions[0..k]` back to front with containment answers `hits`:
/// the first region answered as containing the point.
pub open spec fn first_hit<B>(regions: Seq<HitRegion<B>>, hits: Seq<bool>, k: int) -> Option<HitTestResult>
    decreases k,
{
    if k <= 0 {
        None
    } else if hits[k - 1] {
        Some(result_of(regions[k - 1]))
    } else {
        first_hit(regions, hits, k - 1)
    }
}

/// Scanning `regions[0..k]` back to front with containment answers `hits`:
/// every region answered as containing the point, topmost first, up to and
/// including the first opaque one.
pub open spec fn hits_down_to_opaque<B>(regions: Seq<HitRegion<B>>, hits: Seq<bool>, k: int) -> Seq<HitTestResult>
    decreases k,
{
    if k <= 0 {
        Seq::empty()
    } else if hits[k - 1] {
        if regions[k - 1].is_opaque {
            seq![result_of(regions[k - 1])]
        } else {
            seq![result_of(regions[k - 1])] + hits_down_to_opaque(regions, hits, k - 1)
        }
    } else {
        hits_down_to_opaque(regions, hits, k - 1)
    }
}

/// No region above index `j` was answered as containing the point.
pub open spec fn none_hit_above(hits: Seq<bool>, j: int, n: int) -> bool {
    forall|k: int| j < k < n ==> !#[trigger] hits[k]
}

/// No opaque region above index `j` was answered as containing the point.
pub open spec fn no_opaque_hit_above<B>(regions: Seq<HitRegion<B>>, hits: Seq<bool>, j: int, n: int) -> bool {
    forall|k: int| j < k < n ==> !(#[trigger] hits[k] && regions[k].is_opaque)
}

/// The regions registered in one frame, in painter's order. They live in a
/// `Vec`: the region type is generic over its bounds, which an inline
/// small-vector of a fixed item type cannot hold.
#[derive(Clone, Debug)]
pub struct HitTestList<B> {
    regions: Vec<HitRegion<B>>,
    /// Z-index the next registered region gets.
    z_counter: u32,
}

impl<B> View for HitTestList<B> {
    type V = Seq<HitRegion<B>>;

    closed spec fn view(&self) -> Seq<HitRegion<B>> {
        self.regions@
    }
}

impl<B> HitTestList<B> {
    /// The z-index the next registered region gets.
    pub closed spec fn next_z(&self) -> u32 {
        self.z_counter
    }

    /// An empty list.
    pub fn new() -> (r: HitTestList<B>)
        ensures
            r@ == Seq::<HitRegion<B>>::empty(),
            r.next_z() == 0,
    {
        HitTestList { regions: Vec::new(), z_counter: 0 }
    }

    /// Remove every region (start of a frame).
    pub fn clear(&mut self)
        ensures
            final(self)@ == Seq::<HitRegion<B>>::empty(),
            final(self).next_z() == 0,
    {
        self.regions.clear();
        self.z_counter = 0;
    }

    /// Register `region` on top of the others; its z-index is assigned from
    /// the registration order.
    pub fn push(&mut self, region: HitRegion<B>)
        requires
            old(self).next_z() < u32::MAX,
        ensures
            final(self)@ == old(self)@.push(HitRegion { z_index: old(self).next_z(), ..region }),
            final(self).next_z() == old(self).next_z() + 1,
    {
        let region = HitRegion { z_index: self.z_counter, ..region };
        self.z_counter = self.z_counter + 1;
        self.regions.push(region);
    }

    /// Number of registered regions.
    pub fn len(&self) -> (r: usize)
        ensures
            r == self@.len(),
    {
        self.regions.len()
    }

    /// Whether no region is registered.
    pub fn is_empty(&self) -> (r: bool)
        ensures
            r == (self@.len() == 0),
    {
        self.regions.len() == 0
    }

    /// Whether `id` has a registered region this frame (an element without
    /// one was unmounted).
    pub fn contains(&self, id: ElementId) -> (r: bool)
        ensures
            r == exists|i: int| 0 <= i < self@.len() && (#[trigger] self@[i]).element_id == id,
    {
        let mut i: usize = 0;
        while i < self.regions.len()
            invariant
                i <= self.regions@.len(),
                forall|k: int| 0 <= k < i ==> (#[trigger] self.regions@[k]).element_id != id,
            decreases self.regions.len() - i,
        {
            if self.regions[i].element_id.0 == id.0 {
                return true;
            }
            i = i + 1;
        }
        false
    }

    /// The topmost region whose bounds contain the point, as answered by
    /// `contains`. Regions are asked back to front until one answers yes.
    pub fn hit_test<F: Fn(&B) -> bool>(&self, contains: F) -> (r: Option<HitTestResult>)
        requires
            forall|b: &B| call_requires(contains, (b,)),
        ensures
            exists|hits: Seq<bool>|
                {
                    &&& hits.len() == self@.len()
                    &&& r == first_hit(self@, hits, self@.len() as int)
                    &&& forall|j: int|
                        0 <= j < self@.len() && none_hit_above(hits, j, self@.len() as int)
                            ==> call_ensures(contains, (&self@[j].bounds,), #[trigger] hits[j])
                },
    {
        let n = self.regions.len();
        let ghost mut hits: Seq<bool> = Seq::new(n as nat, |k: int| false);
        let mut i: usize = n;
        while i > 0
            invariant
                i <= n,
                n == self.regions@.len(),
                hits.len() == n,
                forall|b: &B| call_requires(contains, (b,)),
                forall|k: int| i <= k < n ==> !#[trigger] hits[k],
                forall|k: int|
                    i <= k < n ==> call_ensures(contains, (&self.regions@[k].bounds,), #[trigger] hits[k]),
                first_hit(self.regions@, hits, n as int) == first_hit(self.regions@, hits, i as int),
            decreases i,
        {
            i = i - 1;
            let region = &self.regions[i];
            let hit = contains(&region.bounds);
            proof {
                hits = hits.update(i as int, hit);
                assert(first_hit(self.regions@, hits, n as int) == first_hit(self.regions@, hits, i + 1))
                    by {
                    lemma_first_hit_skips(self.regions@, hits, i as int + 1, n as int);
                }
            }
            if hit {
                let res = HitTestResult { element_id: region.element_id, cursor: region.cursor };
                proof {
                    assert(call_ensures(contains, (&self.regions@[i as int].bounds,), hits[i as int]));
                    assert(res == result_of(self.regions@[i as int]));
                    assert forall|j: int|
                        0 <= j < n && none_hit_above(hits, j, n as int) implies call_ensures(
                        contains,
                        (&self.regions@[j].bounds,),
                        #[trigger] hits[j],
                    ) by {
                        if j < i {
                            assert(hits[i as int]);
                        }
                    }
                    assert(first_hit(self.regions@, hits, i as int + 1) == Some(
                        result_of(self.regions@[i as int]),
                    ));
                    assert(self@ == self.regions@);
                    assert(Some(res) == first_hit(self@, hits, self@.len() as int));
                    assert({
                        &&& hits.len() == self@.len()
                        &&& Some(res) == first_hit(self@, hits, self@.len() as int)
                        &&& forall|j: int|
                            0 <= j < self@.len() && none_hit_above(hits, j, self@.len() as int)
                                ==> call_ensures(contains, (&self@[j].bounds,), #[trigger] hits[j])
                    });
                }
                return Some(res);
            }
        }
        proof {
            assert forall|j: int|
                0 <= j < n && none_hit_above(hits, j, n as int) implies call_ensures(
                contains,
                (&self.regions@[j].bounds,),
                #[trigger] hits[j],
            ) by {}
        }
        None
    }

    /// Every region whose bounds contain the point, topmost first, as
    /// answered by `contains`; the walk stops after the first opaque region
    /// that contains it, so the regions behind that one are excluded.
    pub fn hit_test_all<F: Fn(&B) -> bool>(&self, contains: F) -> (r: Vec<HitTestResult>)
        requires
            forall|b: &B| call_requires(contains, (b,)),
        ensures
            exists|hits: Seq<bool>|
                {
                    &&& hits.len() == self@.len()
                    &&& r@ == hits_down_to_opaque(self@, hits, self@.len() as int)
                    &&& forall|j: int|
                        0 <= j < self@.len() && no_opaque_hit_above(self@, hits, j, self@.len() as int)
                            ==> call_ensures(contains, (&self@[j].bounds,), #[trigger] hits[j])
                },
    {
        let n = self.regions.len();
        let ghost regions = self.regions@;
        let ghost mut hits: Seq<bool> = Seq::new(n as nat, |k: int| false);
        let mut results: Vec<HitTestResult> = Vec::new();
        let mut i: usize = n;
        while i > 0
            invariant
                i <= n,
                n == regions.len(),
                regions == self.regions@,
                hits.len() == n,
                forall|b: &B| call_requires(contains, (b,)),
                no_opaque_hit_above(regions, hits, i as int - 1, n as int),
                forall|k: int|
                    i <= k < n ==> call_ensures(contains, (&regions[k].bounds,), #[trigger] hits[k]),
                results@ == hits_between(regions, hits, i as int, n as int),
            decreases i,
        {
            i = i - 1;
            let region = &self.regions[i];
            let hit = contains(&region.bounds);
            let ghost before = hits;
            proof {
                hits = hits.update(i as int, hit);
                lemma_hits_between_frame(regions, before, hits, i as int + 1, n as int);
            }
            if hit {
                results.push(HitTestResult { element_id: region.element_id, cursor: region.cursor });
                if region.is_opaque {
                    proof {
                        lemma_scan_prefix(regions, hits, i as int + 1, n as int);
                        assert(results@ =~= hits_between(regions, hits, i as int + 1, n as int)
                            + seq![result_of(regions[i as int])]);
                        assert(hits_down_to_opaque(regions, hits, i as int + 1) =~= seq![
                            result_of(regions[i as int]),
                        ]);
                        assert forall|j: int|
                            0 <= j < n && no_opaque_hit_above(regions, hits, j, n as int)
                                implies call_ensures(
                            contains,
                            (&regions[j].bounds,),
                            #[trigger] hits[j],
                        ) by {
                            if j < i {
                                assert(hits[i as int] && regions[i as int].is_opaque);
                            }
                        }
                        assert(self@ == regions);
                        assert({
                            &&& hits.len() == self@.len()
                            &&& results@ == hits_down_to_opaque(self@, hits, self@.len() as int)
                            &&& forall|j: int|
                                0 <= j < self@.len() && no_opaque_hit_above(
                                    self@,
                                    hits,
                                    j,
                                    self@.len() as int,
                                ) ==> call_ensures(
                                    contains,
                                    (&self@[j].bounds,),
                                    #[trigger] hits[j],
                                )
                        });
                    }
                    return results;
                }
            }
            proof {
                assert(results@ =~= hits_between(regions, hits, i as int, n as int));
            }
        }
        proof {
            lemma_scan_prefix(regions, hits, 0, n as int);
            assert(hits_down_to_opaque(regions, hits, 0) =~= Seq::<HitTestResult>::empty());
            assert(results@ =~= hits_down_to_opaque(regions, hits, n as int));
            assert(self@ == regions);
            assert({
                &&& hits.len() == self@.len()
                &&& results@ == hits_down_to_opaque(self@, hits, self@.len() as int)
                &&& forall|j: int|
                    0 <= j < self@.len() && no_opaque_hit_above(self@, hits, j, self@.len() as int)
                        ==> call_ensures(contains, (&self@[j].bounds,), #[trigger] hits[j])
            });
        }
        results
    }

    /// The cursor of the topmost region containing the point, the arrow when
    /// there is none.
    pub fn cursor_at<F: Fn(&B) -> bool>(&self, contains: F) -> (r: CursorStyle)
        requires
            forall|b: &B| call_requires(contains, (b,)),
        ensures
            exists|hits: Seq<bool>|
                {
                    &&& hits.len() == self@.len()
                    &&& r == match first_hit(self@, hits, self@.len() as int) {
                        Some(res) => res.cursor,
                        None => CursorStyle::Arrow,
                    }
                    &&& forall|j: int|
                        0 <= j < self@.len() && none_hit_above(hits, j, self@.len() as int)
                            ==> call_ensures(contains, (&self@[j].bounds,), #[trigger] hits[j])
                },
    {
        match self.hit_test(contains) {
            Some(res) => res.cursor,
            None => CursorStyle::Arrow,
        }
    }
}

impl<B> Default for HitTestList<B> {
    fn default() -> (r: HitTestList<B>)
        ensures
            r@ == Seq::<HitRegion<B>>::empty(),
            r.next_z() == 0,
    {
        HitTestList::new()
    }
}

/// With no hit among `regions[k..n]`, scanning from `n` finds what scanning
/// from `k` finds.
proof fn lemma_first_hit_skips<B>(regions: Seq<HitRegion<B>>, hits: Seq<bool>, k: int, n: int)
    requires
        0 <= k <= n,
        forall|m: int| k <= m < n ==> !#[trigger] hits[m],
    ensures
        first_hit(regions, hits, n) == first_hit(regions, hits, k),
    decreases n - k,
{
    if n > k {
        lemma_first_hit_skips(regions, hits, k, n - 1);
    }
}

/// Scanning `regions[lo..hi]` top to bottom without stopping: every region
/// answered as containing the point, topmost first.
pub open spec fn hits_between<B>(regions: Seq<HitRegion<B>>, hits: Seq<bool>, lo: int, hi: int) -> Seq<HitTestResult>
    decreases hi - lo,
{
    if lo >= hi {
        Seq::empty()
    } else {
        hits_between(regions, hits, lo + 1, hi) + if hits[lo] {
            seq![result_of(regions[lo])]
        } else {
            Seq::empty()
        }
    }
}

/// `hits_between` reads the answers in `[lo, hi)` only.
proof fn lemma_hits_between_frame<B>(regions: Seq<HitRegion<B>>, h1: Seq<bool>, h2: Seq<bool>, lo: int, hi: int)
    requires
        forall|k: int| lo <= k < hi ==> h1[k] == h2[k],
    ensures
        hits_between(regions, h1, lo, hi) == hits_between(regions, h2, lo, hi),
    decreases hi - lo,
{
    if lo < hi {
        lemma_hits_between_frame(regions, h1, h2, lo + 1, hi);
    }
}

/// With no opaque hit in `[lo, hi)`, the stopping scan from `hi` is the
/// non-stopping scan of `[lo, hi)` followed by the stopping scan from `lo`.
proof fn lemma_scan_prefix<B>(regions: Seq<HitRegion<B>>, hits: Seq<bool>, lo: int, hi: int)
    requires
        0 <= lo <= hi,
        no_opaque_hit_above(regions, hits, lo - 1, hi),
    ensures
        hits_down_to_opaque(regions, hits, hi) == hits_between(regions, hits, lo, hi)
            + hits_down_to_opaque(regions, hits, lo),
    decreases hi - lo,
{
    if lo == hi {
        assert(hits_between(regions, hits, lo, hi) + hits_down_to_opaque(regions, hits, lo)
            =~= hits_down_to_opaque(regions, hits, lo));
    } else {
        lemma_scan_prefix(regions, hits, lo + 1, hi);
        assert(!(hits[lo] && regions[lo].is_opaque));
        let tail = if hits[lo] {
            seq![result_of(regions[lo])]
        } else {
            Seq::empty()
        };
        assert(hits_down_to_opaque(regions, hits, lo + 1) =~= tail + hits_down_to_opaque(
            regions,
            hits,
            lo,
        ));
        assert(hits_between(regions, hits, lo + 1, hi) + (tail + hits_down_to_opaque(
            regions,
            hits,
            lo,
        )) =~= hits_between(regions, hits, lo, hi) + hits_down_to_opaque(regions, hits, lo));
    }
}

/// The single-hit query and the all-hits query agree: the topmost hit is the
/// first of all hits, and there are hits exactly when there is a topmost one.
pub proof fn law_topmost_is_first_of_all<B>(regions: Seq<HitRegion<B>>, hits: Seq<bool>, n: int)
    requires
        0 <= n <= regions.len(),
    ensures
        first_hit(regions, hits, n) is None <==> hits_down_to_opaque(regions, hits, n).len() == 0,
        first_hit(regions, hits, n) matches Some(r) ==> hits_down_to_opaque(regions, hits, n)[0] == r,
    decreases n,
{
    if n > 0 {
        law_topmost_is_first_of_all(regions, hits, n - 1);
    }
}

} // verus!
