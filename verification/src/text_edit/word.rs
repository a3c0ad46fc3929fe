//! Unicode word-boundary lookup for double-click word selection.
use vstd::prelude::*;

use std::ops::Range;

use unicode_segmentation::UnicodeSegmentation;

use crate::text_edit::text_bytes::{byte_len, is_boundary};

verus! {

/// The word-bound segments `(start, byte_len)` of `text`, in order, as
/// `unicode_segmentation` splits it (UAX #29).
pub uninterp spec fn word_bounds(text: Seq<char>) -> Seq<(usize, usize)>;

/// `str::split_word_bound_indices`, each segment taken as its start and byte
/// length. Every segment is a non-empty `&str` slice of `text`, so it starts
/// and ends on char boundaries of the text, and the segments tile the text
/// from its start to its end.
#[verifier::external_body]
fn word_bound_segments(text: &str) -> (segs: Vec<(usize, usize)>)
    ensures
        segs@ == word_bounds(text@),
        forall|i: int| 0 <= i < segs@.len() ==> #[trigger] segs@[i].0 + segs@[i].1 <= byte_len(text@),
        forall|i: int| 0 <= i < segs@.len() ==> #[trigger] segs@[i].0 + segs@[i].1 <= usize::MAX,
        forall|i: int|
            0 <= i < segs@.len() ==> is_boundary(text@, #[trigger] segs@[i].0 as int)
                && is_boundary(text@, segs@[i].0 + segs@[i].1),
        forall|i: int| 0 <= i < segs@.len() ==> #[trigger] segs@[i].1 > 0,
        segs@.len() == 0 <==> byte_len(text@) == 0,
        segs@.len() > 0 ==> segs@[0].0 == 0 && segs@.last().0 + segs@.last().1 == byte_len(text@),
        forall|i: int| 0 <= i < segs@.len() - 1 ==> #[trigger] segs@[i + 1].0 == segs@[i].0 + segs@[i].1,
{
    text.split_word_bound_indices().map(|(start, seg)| (start, seg.len())).collect()
}

/// Segment `i` of `segs` contains byte `byte` (half-open).
pub open spec fn seg_holds(segs: Seq<(usize, usize)>, i: int, byte: int) -> bool {
    0 <= i < segs.len() && byte < segs[i].0 + segs[i].1
}

/// The span the click at `byte` selects among `segs`: the first segment whose
/// end lies past `byte`; the last segment when there is none; `byte..byte`
/// when there are no segments.
pub open spec fn word_span(segs: Seq<(usize, usize)>, byte: int) -> (int, int) {
    if exists|i: int| #[trigger] seg_holds(segs, i, byte) {
        let i = choose|i: int|
            #[trigger] seg_holds(segs, i, byte) && forall|k: int| 0 <= k < i ==> !seg_holds(segs, k, byte);
        (segs[i].0 as int, segs[i].0 + segs[i].1)
    } else if segs.len() > 0 {
        (segs.last().0 as int, segs.last().0 + segs.last().1)
    } else {
        (byte, byte)
    }
}

/// The span a click at `byte` selects among the segments `segs` (each a
/// start and a byte length, in order): the first segment whose end lies past
/// `byte`; the last segment when there is none; `byte..byte` when there are
/// no segments.
pub fn word_span_in(segs: &[(usize, usize)], byte: usize) -> (r: Range<usize>)
    requires
        forall|k: int| 0 <= k < segs@.len() ==> #[trigger] segs@[k].0 + segs@[k].1 <= usize::MAX,
    ensures
        (r.start as int, r.end as int) == word_span(segs@, byte as int),
{
    let ghost sv = segs@;
    let mut last: Range<usize> = byte..byte;
    let mut i: usize = 0;
    while i < segs.len()
        invariant
            i <= segs@.len(),
            segs@ == sv,
            forall|k: int| 0 <= k < i ==> !#[trigger] seg_holds(sv, k, byte as int),
            forall|k: int| 0 <= k < sv.len() ==> #[trigger] sv[k].0 + sv[k].1 <= usize::MAX,
            i == 0 ==> last.start == byte && last.end == byte,
            i > 0 ==> last.start == sv[i - 1].0 && last.end == sv[i - 1].0 + sv[i - 1].1,
        decreases segs@.len() - i,
    {
        let (start, len) = segs[i];
        assert(sv[i as int].0 + sv[i as int].1 <= usize::MAX);
        let end = start + len;
        if byte < end {
            proof {
                assert(seg_holds(sv, i as int, byte as int));
                assert(seg_holds(sv, i as int, byte as int) && forall|k: int|
                    0 <= k < i ==> !seg_holds(sv, k, byte as int));
                let c = choose|c: int|
                    #[trigger] seg_holds(sv, c, byte as int) && forall|k: int|
                        0 <= k < c ==> !seg_holds(sv, k, byte as int);
                if c < i {
                } else if c > i {
                    assert(!seg_holds(sv, i as int, byte as int));
                }
            }
            return start..end;
        }
        last = start..end;
        i = i + 1;
    }
    last
}

/// The span a click selects is a segment of `segs`, or empty at the click.
proof fn lemma_word_span_is_segment(segs: Seq<(usize, usize)>, byte: int)
    ensures
        word_span(segs, byte) == (byte, byte) || exists|i: int|
            0 <= i < segs.len() && word_span(segs, byte) == (#[trigger] segs[i].0 as int, segs[i].0
                + segs[i].1),
{
    if exists|i: int| #[trigger] seg_holds(segs, i, byte) {
        assert(seg_holds(segs, choose|i: int| #[trigger] seg_holds(segs, i, byte), byte));
        let i = choose|i: int|
            #[trigger] seg_holds(segs, i, byte) && forall|k: int| 0 <= k < i ==> !seg_holds(segs, k, byte);
        if !(seg_holds(segs, i, byte) && forall|k: int| 0 <= k < i ==> !seg_holds(segs, k, byte)) {
            let w = choose|w: int| #[trigger] seg_holds(segs, w, byte);
            lemma_first_holding(segs, byte, w);
        }
        assert(segs[i].0 == segs[i].0);
    } else if segs.len() > 0 {
        assert(segs[segs.len() - 1] == segs.last());
    }
}

/// When some segment holds `byte`, a first one does.
proof fn lemma_first_holding(segs: Seq<(usize, usize)>, byte: int, w: int)
    requires
        seg_holds(segs, w, byte),
    ensures
        exists|i: int|
            #[trigger] seg_holds(segs, i, byte) && forall|k: int| 0 <= k < i ==> !seg_holds(segs, k, byte),
    decreases w,
{
    if exists|k: int| 0 <= k < w && seg_holds(segs, k, byte) {
        let k = choose|k: int| 0 <= k < w && seg_holds(segs, k, byte);
        lemma_first_holding(segs, byte, k);
    } else {
        assert(seg_holds(segs, w, byte) && forall|k: int| 0 <= k < w ==> !seg_holds(segs, k, byte));
    }
}

/// When the segments tile `0..n` in order, the span a click at a byte below
/// `n` selects contains that byte.
proof fn lemma_word_span_contains(segs: Seq<(usize, usize)>, byte: int, n: int)
    requires
        0 <= byte < n,
        segs.len() > 0,
        segs[0].0 == 0,
        segs.last().0 + segs.last().1 == n,
        forall|i: int| 0 <= i < segs.len() - 1 ==> #[trigger] segs[i + 1].0 == segs[i].0 + segs[i].1,
    ensures
        word_span(segs, byte).0 <= byte < word_span(segs, byte).1,
{
    let l = segs.len() - 1;
    assert(seg_holds(segs, l, byte));
    lemma_first_holding(segs, byte, l);
    let i = choose|i: int|
        #[trigger] seg_holds(segs, i, byte) && forall|k: int| 0 <= k < i ==> !seg_holds(segs, k, byte);
    if i > 0 {
        assert(!seg_holds(segs, i - 1, byte));
        assert(segs[(i - 1) + 1].0 == segs[i - 1].0 + segs[i - 1].1);
    }
}

/// Absolute byte range of the Unicode word segment containing `byte`: the
/// segment whose half-open range contains it, the final segment when `byte` is
/// at or past the end, `byte..byte` for empty text.
pub fn word_range_at(text: &str, byte: usize) -> (r: Range<usize>)
    ensures
        (r.start as int, r.end as int) == word_span(word_bounds(text@), byte as int),
        r.start <= r.end,
        byte < byte_len(text@) ==> r.start <= byte < r.end,
        is_boundary(text@, byte as int) ==> is_boundary(text@, r.start as int) && is_boundary(
            text@,
            r.end as int,
        ),
{
    let segs = word_bound_segments(text);
    let r = word_span_in(segs.as_slice(), byte);
    proof {
        lemma_word_span_is_segment(segs@, byte as int);
        if byte < byte_len(text@) {
            lemma_word_span_contains(segs@, byte as int, byte_len(text@) as int);
        }
    }
    r
}

} // verus!
