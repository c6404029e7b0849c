use vstd::prelude::*;
use crate::roots::{Root, first_within, within};

verus! {

/// Whether some candidate reported a hit with this key.
pub open spec fn reports(hits: Seq<Option<i32>>, key: i32) -> bool {
    exists|i: int| 0 <= i < hits.len() && hits[i] == Some(key)
}

/// Index `k` holds the nearest reported hit: its key is no greater than any
/// other reported key, and strictly smaller than every reported key before it.
pub open spec fn is_nearest(hits: Seq<Option<i32>>, k: int) -> bool {
    &&& 0 <= k < hits.len()
    &&& hits[k] is Some
    &&& forall|i: int| 0 <= i < hits.len() && hits[i] is Some ==> hits[k].unwrap() <= hits[i].unwrap()
    &&& forall|i: int| 0 <= i < k && hits[i] is Some ==> hits[k].unwrap() < hits[i].unwrap()
}

/// The key of the nearest reported hit, if any candidate reported one.
pub open spec fn nearest_key(hits: Seq<Option<i32>>) -> Option<i32> {
    if exists|k: int| is_nearest(hits, k) {
        hits[choose|k: int| is_nearest(hits, k)]
    } else {
        None
    }
}

/// A surface's two intersection parameters with a ray, as order keys: the
/// smaller root `near` and the larger root `far`.
#[derive(Clone, Copy, Debug, PartialEq, Eq, Structural)]
pub struct Roots {
    pub near: i32,
    pub far: i32,
}

/// The key that one surface reports for the whole window `(lo, hi)`: its near
/// root if that lies inside, else its far root if that does, else no hit.
pub open spec fn answer(lo: i32, hi: i32, roots: Option<Roots>) -> Option<i32> {
    match roots {
        Some(r) => if within(lo, hi, r.near) {
            Some(r.near)
        } else if within(lo, hi, r.far) {
            Some(r.far)
        } else {
            None
        },
        None => None,
    }
}

/// What each surface reports for the whole window `(lo, hi)`.
pub open spec fn answers(lo: i32, hi: i32, surfaces: Seq<Option<Roots>>) -> Seq<Option<i32>> {
    surfaces.map_values(|r: Option<Roots>| answer(lo, hi, r))
}

/// Finds the surface whose reported hit is nearest along the ray, and which of
/// its roots that hit is. `surfaces[i]` holds the roots of surface `i`, or
/// `None` when the ray's line misses it.
///
/// The surfaces are tested in order against a shrinking window: its upper end
/// starts at `hi` and drops to each hit found, so a later surface is taken only
/// when it is strictly nearer. The result is the nearest of the answers that
/// each surface gives for the full window, the earliest among equals.
pub fn closest_hit(lo: i32, hi: i32, surfaces: &Vec<Option<Roots>>) -> (r: Option<(usize, Root)>)
    requires
        forall|i: int| 0 <= i < surfaces@.len() && surfaces@[i] is Some
            ==> surfaces@[i].unwrap().near <= surfaces@[i].unwrap().far,
    ensures
        match r {
            Some((k, root)) => {
                &&& is_nearest(answers(lo, hi, surfaces@), k as int)
                &&& nearest_key(answers(lo, hi, surfaces@)) == answers(lo, hi, surfaces@)[k as int]
                &&& root == Root::Near <==> within(lo, hi, surfaces@[k as int].unwrap().near)
            },
            None => {
                &&& forall|i: int| 0 <= i < surfaces@.len() ==> answers(lo, hi, surfaces@)[i] is None
                &&& nearest_key(answers(lo, hi, surfaces@)) is None
            },
        },
{
    let ghost full = answers(lo, hi, surfaces@);
    let mut best: Option<(usize, Root)> = None;
    let mut closest: i32 = hi;
    let mut i: usize = 0;
    while i < surfaces.len()
        invariant
            i <= surfaces@.len(),
            full == answers(lo, hi, surfaces@),
            full.len() == surfaces@.len(),
            forall|j: int| 0 <= j < surfaces@.len() && surfaces@[j] is Some
                ==> surfaces@[j].unwrap().near <= surfaces@[j].unwrap().far,
            closest <= hi,
            match best {
                Some((k, root)) => {
                    &&& k < i
                    &&& full[k as int] == Some(closest)
                    &&& root == Root::Near <==> within(lo, hi, surfaces@[k as int].unwrap().near)
                    &&& forall|j: int| 0 <= j < i && full[j] is Some ==> closest <= full[j].unwrap()
                    &&& forall|j: int| 0 <= j < k && full[j] is Some ==> closest < full[j].unwrap()
                },
                None => {
                    &&& closest == hi
                    &&& forall|j: int| 0 <= j < i ==> full[j] is None
                },
            },
        decreases surfaces@.len() - i,
    {
        if let Some(r) = surfaces[i] {
            if let Some(root) = first_within(lo, closest, r.near, r.far) {
                closest = match root {
                    Root::Near => r.near,
                    Root::Far => r.far,
                };
                best = Some((i, root));
            }
        }
        i = i + 1;
    }
    proof {
        if let Some((k, _)) = best {
            assert(is_nearest(full, k as int));
            lemma_nearest_unique(full, k as int, choose|j: int| is_nearest(full, j));
        } else {
            assert(!exists|k: int| is_nearest(full, k));
        }
    }
    best
}

proof fn lemma_nearest_unique(hits: Seq<Option<i32>>, a: int, b: int)
    requires
        is_nearest(hits, a),
    ensures
        is_nearest(hits, b) ==> a == b,
{
    if is_nearest(hits, b) {
        if a < b {
            assert(hits[b].unwrap() < hits[a].unwrap());
        } else if b < a {
            assert(hits[a].unwrap() < hits[b].unwrap());
        }
    }
}

/// The nearest hit depends only on which keys were reported, not on the order
/// in which the surfaces were listed.
pub proof fn lemma_nearest_ignores_order(a: Seq<Option<i32>>, b: Seq<Option<i32>>)
    requires
        forall|key: i32| reports(a, key) <==> reports(b, key),
    ensures
        nearest_key(a) == nearest_key(b),
{
    if exists|i: int| 0 <= i < a.len() && a[i] is Some {
        lemma_nearest_exists(a);
        let ka = choose|k: int| is_nearest(a, k);
        assert(reports(b, a[ka].unwrap())) by {
            assert(reports(a, a[ka].unwrap()));
        }
        let jb = choose|j: int| 0 <= j < b.len() && b[j] == Some(a[ka].unwrap());
        lemma_nearest_exists(b);
        let kb = choose|k: int| is_nearest(b, k);
        assert(reports(a, b[kb].unwrap())) by {
            assert(reports(b, b[kb].unwrap()));
        }
        let ja = choose|j: int| 0 <= j < a.len() && a[j] == Some(b[kb].unwrap());
        assert(a[ka].unwrap() <= a[ja].unwrap());
        assert(b[kb].unwrap() <= b[jb].unwrap());
    } else {
        assert forall|key: i32| !reports(a, key) by {}
        assert forall|j: int| 0 <= j < b.len() implies b[j] is None by {
            if b[j] is Some {
                assert(reports(b, b[j].unwrap()));
            }
        }
        assert(!exists|k: int| is_nearest(b, k));
        assert(!exists|k: int| is_nearest(a, k));
    }
}

/// Listing the same surfaces in another order leaves the nearest hit as it
/// was: `closest_hit` on either list reports a hit with the same key.
pub proof fn lemma_closest_ignores_surface_order(
    lo: i32,
    hi: i32,
    a: Seq<Option<Roots>>,
    b: Seq<Option<Roots>>,
)
    requires
        forall|i: int| 0 <= i < a.len() ==> b.contains(#[trigger] a[i]),
        forall|j: int| 0 <= j < b.len() ==> a.contains(#[trigger] b[j]),
    ensures
        nearest_key(answers(lo, hi, a)) == nearest_key(answers(lo, hi, b)),
{
    let ra = answers(lo, hi, a);
    let rb = answers(lo, hi, b);
    assert forall|key: i32| reports(ra, key) implies reports(rb, key) by {
        let i = choose|i: int| 0 <= i < ra.len() && ra[i] == Some(key);
        let j = choose|j: int| 0 <= j < b.len() && b[j] == a[i];
        assert(rb[j] == Some(key));
    }
    assert forall|key: i32| reports(rb, key) implies reports(ra, key) by {
        let j = choose|j: int| 0 <= j < rb.len() && rb[j] == Some(key);
        let i = choose|i: int| 0 <= i < a.len() && a[i] == b[j];
        assert(ra[i] == Some(key));
    }
    lemma_nearest_ignores_order(ra, rb);
}

/// Whenever some candidate reports a hit, a nearest one exists.
proof fn lemma_nearest_exists(hits: Seq<Option<i32>>)
    requires
        exists|i: int| 0 <= i < hits.len() && hits[i] is Some,
    ensures
        exists|k: int| is_nearest(hits, k),
    decreases hits.len(),
{
    let n = hits.len() - 1;
    let front = hits.drop_last();
    assert(forall|i: int| 0 <= i < n ==> front[i] == hits[i]);
    if exists|i: int| 0 <= i < front.len() && front[i] is Some {
        lemma_nearest_exists(front);
        let k = choose|k: int| is_nearest(front, k);
        if hits[n] is Some && hits[n].unwrap() < hits[k].unwrap() {
            assert(is_nearest(hits, n));
        } else {
            assert(is_nearest(hits, k));
        }
    } else {
        assert(is_nearest(hits, n));
    }
}

} // verus!
