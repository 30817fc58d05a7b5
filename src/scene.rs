//! Closest-hit selection over the primitives of a scene.
//!
//! Each primitive reports either no hit inside the ray's window or the
//! distance of its hit along the ray. Only the order of those distances
//! matters here, so each is given as an order-preserving key: for the
//! positive distances inside the window, the bit pattern of an IEEE 754
//! double orders as the number does.

use vstd::prelude::*;

verus! {

/// The scan keeps the first primitive whose key is smaller than every key
/// seen before it, so among equal distances the earliest primitive wins.
pub open spec fn is_closest(candidates: Seq<Option<u64>>, i: int) -> bool {
    &&& 0 <= i < candidates.len()
    &&& candidates[i] is Some
    &&& forall|j: int|
        0 <= j < candidates.len() && #[trigger] candidates[j] is Some ==> candidates[i].unwrap()
            <= candidates[j].unwrap()
    &&& forall|j: int|
        0 <= j < i && #[trigger] candidates[j] is Some ==> candidates[i].unwrap()
            < candidates[j].unwrap()
}

/// The index of the closest hit, or `None` when no primitive was hit.
pub fn closest_hit(candidates: &Vec<Option<u64>>) -> (r: Option<usize>)
    ensures
        r is None <==> forall|j: int| 0 <= j < candidates@.len() ==> #[trigger] candidates@[j] is None,
        r matches Some(i) ==> is_closest(candidates@, i as int),
{
    let mut best: Option<usize> = None;
    let mut i: usize = 0;
    while i < candidates.len()
        invariant
            i <= candidates@.len(),
            best is None <==> forall|j: int| 0 <= j < i ==> #[trigger] candidates@[j] is None,
            best matches Some(b) ==> is_closest(candidates@.subrange(0, i as int), b as int),
        decreases candidates@.len() - i,
    {
        match candidates[i] {
            Some(k) => {
                let take = match best {
                    None => true,
                    Some(b) => k < candidates[b].unwrap(),
                };
                if take {
                    best = Some(i);
                }
            },
            None => {},
        }
        i = i + 1;
    }
    assert(candidates@.subrange(0, i as int) =~= candidates@);
    best
}

/// The keys of the primitives that were hit.
pub open spec fn hit_keys(candidates: Seq<Option<u64>>) -> Set<u64> {
    Set::new(|k: u64| exists|j: int| 0 <= j < candidates.len() && candidates[j] == Some(k))
}

/// The distance of the closest hit depends only on which distances were
/// found, not on the order in which the primitives are scanned.
pub proof fn lemma_closest_key_is_order_free(a: Seq<Option<u64>>, b: Seq<Option<u64>>, i: int, j: int)
    requires
        hit_keys(a) == hit_keys(b),
        is_closest(a, i),
        is_closest(b, j),
    ensures
        a[i] == b[j],
{
    let ka = a[i].unwrap();
    let kb = b[j].unwrap();
    assert(hit_keys(a).contains(ka));
    assert(hit_keys(b).contains(kb));
    assert(hit_keys(b).contains(ka));
    assert(hit_keys(a).contains(kb));
    let ja = choose|m: int| 0 <= m < b.len() && b[m] == Some(ka);
    let ia = choose|m: int| 0 <= m < a.len() && a[m] == Some(kb);
    assert(b[ja] is Some);
    assert(a[ia] is Some);
}

} // verus!
