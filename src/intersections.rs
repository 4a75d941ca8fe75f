//! Choosing and ordering the intersections along a ray. Each intersection
//! is given by an integer key that orders the intersections as their
//! distances `t` are ordered; a key is at least 0 exactly for the
//! intersections at or past the ray's origin.

use vstd::prelude::*;

verus! {

/// Intersection `a` is chosen over intersection `b` as the hit: it is
/// nearer, or as near and on a shape with a smaller handle. This order
/// depends on the intersections alone, not on where they stand in the list.
pub open spec fn chosen_over(keys: Seq<i64>, handles: Seq<u32>, a: int, b: int) -> bool {
    keys[a] < keys[b] || (keys[a] == keys[b] && handles[a] < handles[b])
}

/// `i` is the hit: of the intersections not behind the origin, the nearest,
/// on the shape with the smallest handle among equally near ones (and the
/// first listed, among copies of one intersection).
pub open spec fn is_hit(keys: Seq<i64>, handles: Seq<u32>, i: int) -> bool {
    &&& 0 <= i < keys.len()
    &&& keys[i] >= 0
    &&& forall|j: int|
        0 <= j < keys.len() && #[trigger] keys[j] >= 0 && j != i ==> chosen_over(keys, handles, i, j)
            || (keys[i] == keys[j] && handles[i] == handles[j] && i < j)
}

/// No intersection lies at or past the ray's origin.
pub open spec fn all_behind(keys: Seq<i64>) -> bool {
    forall|j: int| 0 <= j < keys.len() ==> #[trigger] keys[j] < 0
}

/// The hit among intersections given by their keys and the handles of their
/// shapes: the position of the smallest non-negative key, ties going to the
/// smallest handle; `None` when every key is negative.
pub fn hit(keys: &Vec<i64>, handles: &Vec<u32>) -> (r: Option<usize>)
    requires
        keys.len() == handles.len(),
    ensures
        r matches Some(i) ==> is_hit(keys@, handles@, i as int),
        r is None <==> all_behind(keys@),
{
    let mut best: Option<usize> = None;
    for j in 0..keys.len()
        invariant
            keys.len() == handles.len(),
            best matches Some(i) ==> i < j && is_hit(
                keys@.take(j as int),
                handles@.take(j as int),
                i as int,
            ),
            best is None ==> all_behind(keys@.take(j as int)),
    {
        let k = keys[j];
        let h = handles[j];
        if k >= 0 {
            match best {
                Some(i) => {
                    if k < keys[i] || (k == keys[i] && h < handles[i]) {
                        best = Some(j);
                    }
                },
                None => {
                    best = Some(j);
                },
            }
        }
        assert(keys@.take(j + 1) =~= keys@.take(j as int).push(k));
        assert(handles@.take(j + 1) =~= handles@.take(j as int).push(h));
    }
    assert(keys@.take(keys.len() as int) =~= keys@);
    assert(handles@.take(handles.len() as int) =~= handles@);
    best
}

/// Intersection `a` comes before intersection `b` along the ray: it is
/// nearer, or as near and listed earlier.
pub open spec fn precedes(keys: Seq<i64>, a: usize, b: usize) -> bool {
    keys[a as int] < keys[b as int] || (keys[a as int] == keys[b as int] && a < b)
}

/// `order` lists the intersections from nearest to farthest, equally near
/// ones in the order they were given.
pub open spec fn sorted_by_distance(keys: Seq<i64>, order: Seq<usize>) -> bool {
    forall|i: int, j: int|
        0 <= i < j < order.len() ==> precedes(keys, #[trigger] order[i], #[trigger] order[j])
}

/// Position `m` appears in `order`.
pub open spec fn lists(order: Seq<usize>, m: int) -> bool {
    exists|i: int| 0 <= i < order.len() && order[i] == m
}

/// The positions of the intersections given by `keys`, ordered by distance
/// (ascending `t`); a stable sort, so equally near intersections keep their
/// relative order.
pub fn order_by_distance(keys: &Vec<i64>) -> (order: Vec<usize>)
    ensures
        order.len() == keys.len(),
        forall|i: int| 0 <= i < order.len() ==> #[trigger] order@[i] < keys.len(),
        forall|m: int| 0 <= m < keys.len() ==> #[trigger] lists(order@, m),
        sorted_by_distance(keys@, order@),
{
    let mut order: Vec<usize> = Vec::new();
    for k in 0..keys.len()
        invariant
            order.len() == k,
            forall|i: int| 0 <= i < order.len() ==> #[trigger] order@[i] < k,
            forall|m: int| 0 <= m < k ==> #[trigger] lists(order@, m),
            sorted_by_distance(keys@, order@),
    {
        let key = keys[k];
        let mut p: usize = order.len();
        while p > 0 && keys[order[p - 1]] > key
            invariant
                k < keys.len(),
                key == keys@[k as int],
                p <= order.len(),
                forall|i: int| 0 <= i < order.len() ==> #[trigger] order@[i] < k,
                forall|i: int| p <= i < order.len() ==> keys@[#[trigger] order@[i] as int] > key,
            decreases p,
        {
            p = p - 1;
        }
        let ghost before = order@;
        order.insert(p, k);
        proof {
            assert forall|i: int, j: int| 0 <= i < j < order.len() implies precedes(
                keys@,
                #[trigger] order@[i],
                #[trigger] order@[j],
            ) by {
                if j < p {
                    assert(precedes(keys@, before[i], before[j]));
                } else if j == p {
                    assert(precedes(keys@, before[i], before[p - 1]) || i == p - 1);
                } else if i < p {
                    assert(order@[j] == before[j - 1]);
                } else if i == p {
                    assert(order@[j] == before[j - 1]);
                } else {
                    assert(precedes(keys@, before[i - 1], before[j - 1]));
                }
            }
            assert forall|m: int| 0 <= m < k + 1 implies #[trigger] lists(order@, m) by {
                if m == k {
                    assert(order@[p as int] == m);
                } else {
                    assert(lists(before, m));
                    let i = choose|i: int| 0 <= i < before.len() && before[i] == m;
                    if i < p {
                        assert(order@[i] == m);
                    } else {
                        assert(order@[i + 1] == m);
                    }
                }
            }
        }
    }
    order
}

/// The hit does not depend on the order of the intersections: a list has a
/// hit exactly when its reversal has one, and the two hits are the same
/// intersection, at the same distance on the same shape.
pub proof fn lemma_hit_order_independent(keys: Seq<i64>, handles: Seq<u32>)
    requires
        keys.len() == handles.len(),
    ensures
        all_behind(keys) <==> all_behind(keys.reverse()),
        forall|i: int, k: int|
            #[trigger] is_hit(keys, handles, i) && #[trigger] is_hit(
                keys.reverse(),
                handles.reverse(),
                k,
            ) ==> keys[i] == keys.reverse()[k] && handles[i] == handles.reverse()[k],
{
    let rev = keys.reverse();
    let hrev = handles.reverse();
    let n = keys.len();
    assert forall|i: int, k: int|
        #[trigger] is_hit(keys, handles, i) && #[trigger] is_hit(rev, hrev, k) implies keys[i]
        == rev[k] && handles[i] == hrev[k] by {
        let m = n - 1 - k;
        assert(rev[k] == keys[m]);
        assert(hrev[k] == handles[m]);
        assert(rev[n - 1 - i] == keys[i]);
        assert(hrev[n - 1 - i] == handles[i]);
        if m != i {
            assert(keys[m] >= 0);
            assert(rev[n - 1 - i] >= 0);
        }
    }
    if all_behind(keys) {
        assert forall|j: int| 0 <= j < rev.len() implies #[trigger] rev[j] < 0 by {
            assert(rev[j] == keys[n - 1 - j]);
        }
    }
    if all_behind(rev) {
        assert forall|j: int| 0 <= j < n implies #[trigger] keys[j] < 0 by {
            assert(rev[n - 1 - j] == keys[j]);
        }
    }
}

/// The hit of a hit is itself: a list holding only the hit has it as its hit.
pub proof fn lemma_hit_idempotent(keys: Seq<i64>, handles: Seq<u32>, i: int)
    requires
        is_hit(keys, handles, i),
    ensures
        is_hit(seq![keys[i]], seq![handles[i]], 0),
{
}

} // verus!
