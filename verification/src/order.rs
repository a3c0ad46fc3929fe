//! Stable ordering of positions by an integer key.
//!
//! Both the Tab cycle (ordered by `tab_index`) and the modal open order
//! (ordered by z-depth) are stable sorts: equal keys keep their input
//! (registration) order. [`stable_order`] computes that order as a sequence
//! of positions.
use vstd::prelude::*;

verus! {

/// Position `a` comes strictly before position `b` in the stable order of
/// `keys`: a smaller key first, equal keys by position.
pub open spec fn key_precedes(keys: Seq<i32>, a: int, b: int) -> bool {
    keys[a] < keys[b] || (keys[a] == keys[b] && a < b)
}

/// `order` lists every position of `keys` exactly once, in stable key order.
pub open spec fn is_stable_order(keys: Seq<i32>, order: Seq<usize>) -> bool {
    &&& order.len() == keys.len()
    &&& forall|i: int| 0 <= i < order.len() ==> #[trigger] order[i] < keys.len()
    &&& forall|i: int, j: int|
        0 <= i < j < order.len() ==> key_precedes(keys, #[trigger] order[i] as int, #[trigger] order[j] as int)
    &&& forall|k: int| 0 <= k < keys.len() ==> #[trigger] order.contains(k as usize)
}

/// Compute the stable order of the positions of `keys` (insertion sort).
pub fn stable_order(keys: &Vec<i32>) -> (order: Vec<usize>)
    ensures
        is_stable_order(keys@, order@),
{
    let n = keys.len();
    let mut order: Vec<usize> = Vec::new();
    let mut k: usize = 0;
    while k < n
        invariant
            k <= n,
            n == keys.len(),
            order.len() == k,
            forall|i: int| 0 <= i < order.len() ==> #[trigger] order@[i] < k,
            forall|i: int, j: int|
                0 <= i < j < order.len() ==> key_precedes(
                    keys@,
                    #[trigger] order@[i] as int,
                    #[trigger] order@[j] as int,
                ),
            forall|m: int| 0 <= m < k ==> #[trigger] order@.contains(m as usize),
        decreases n - k,
    {
        let key = keys[k];
        // First position whose key is strictly greater than `key`.
        let mut p: usize = 0;
        while p < order.len() && keys[order[p]] <= key
            invariant
                p <= order.len(),
                k < n,
                n == keys.len(),
                key == keys@[k as int],
                forall|i: int| 0 <= i < order.len() ==> #[trigger] order@[i] < k,
                forall|i: int| 0 <= i < p ==> keys@[#[trigger] order@[i] as int] <= key,
            decreases order.len() - p,
        {
            p = p + 1;
        }
        let ghost old_order = order@;
        order.insert(p, k);
        assert(order@ =~= old_order.take(p as int).push(k).add(old_order.skip(p as int)));
        assert forall|i: int, j: int| 0 <= i < j < order.len() implies key_precedes(
            keys@,
            #[trigger] order@[i] as int,
            #[trigger] order@[j] as int,
        ) by {
            if j < p {
                assert(order@[i] == old_order[i] && order@[j] == old_order[j]);
            } else if j == p {
                assert(order@[i] == old_order[i]);
            } else if i == p {
                assert(order@[j] == old_order[j - 1]);
                assert(keys@[old_order[p as int] as int] > key);
                if j - 1 > p {
                    assert(key_precedes(keys@, old_order[p as int] as int, old_order[j - 1] as int));
                }
            } else if i < p {
                assert(order@[i] == old_order[i] && order@[j] == old_order[j - 1]);
            } else {
                assert(order@[i] == old_order[i - 1] && order@[j] == old_order[j - 1]);
            }
        }
        assert forall|m: int| 0 <= m < k + 1 implies #[trigger] order@.contains(m as usize) by {
            if m == k {
                assert(order@[p as int] == k);
            } else {
                assert(old_order.contains(m as usize));
                let w = choose|w: int| 0 <= w < old_order.len() && old_order[w] == m as usize;
                if w < p {
                    assert(order@[w] == m as usize);
                } else {
                    assert(order@[w + 1] == m as usize);
                }
            }
        }
        k = k + 1;
    }
    order
}

/// The stable order of a key sequence is unique.
pub proof fn lemma_stable_order_unique(keys: Seq<i32>, o1: Seq<usize>, o2: Seq<usize>)
    requires
        is_stable_order(keys, o1),
        is_stable_order(keys, o2),
    ensures
        o1 == o2,
{
    lemma_stable_prefix_equal(keys, o1, o2, o1.len() as int);
    assert(o1 =~= o2);
}

proof fn lemma_stable_prefix_equal(keys: Seq<i32>, o1: Seq<usize>, o2: Seq<usize>, n: int)
    requires
        is_stable_order(keys, o1),
        is_stable_order(keys, o2),
        0 <= n <= o1.len(),
    ensures
        forall|j: int| 0 <= j < n ==> o1[j] == o2[j],
    decreases n,
{
    if n > 0 {
        let i = n - 1;
        lemma_stable_prefix_equal(keys, o1, o2, i);
        let a = o1[i];
        let b = o2[i];
        if a != b {
            assert(a < keys.len());
            assert(o2.contains((a as int) as usize));
            let w = choose|w: int| 0 <= w < o2.len() && o2[w] == a;
            assert(b < keys.len());
            assert(o1.contains((b as int) as usize));
            let v = choose|v: int| 0 <= v < o1.len() && o1[v] == b;
            if w < i {
                assert(o1[w] == a);
                assert(key_precedes(keys, o1[w] as int, o1[i] as int));
            } else if v < i {
                assert(o2[v] == b);
                assert(key_precedes(keys, o2[v] as int, o2[i] as int));
            } else {
                assert(w > i && v > i);
                assert(key_precedes(keys, o2[i] as int, o2[w] as int));
                assert(key_precedes(keys, o1[i] as int, o1[v] as int));
            }
        }
    }
}

} // verus!
