//! What the cluster views compute from decoded points before drawing them:
//! which points belong to a cluster, and the largest id or class that
//! colour scales are normalised by.
use crate::point::DecodedPoint;
use vstd::prelude::*;

verus! {

/// A point belongs to a cluster when its id is positive.
pub open spec fn is_clustered(p: DecodedPoint) -> bool {
    p.id > 0
}

/// The largest cluster id among the points, or 1 where none is larger.
pub fn max_cluster_id(points: &[DecodedPoint]) -> (r: i64)
    ensures
        r >= 1,
        forall|k: int| 0 <= k < points@.len() ==> #[trigger] points@[k].id <= r,
        r == 1 || exists|k: int| 0 <= k < points@.len() && #[trigger] points@[k].id == r,
{
    let mut best: i64 = 1;
    let mut i: usize = 0;
    while i < points.len()
        invariant
            i <= points@.len(),
            best >= 1,
            forall|k: int| 0 <= k < i ==> #[trigger] points@[k].id <= best,
            best == 1 || exists|k: int| 0 <= k < i && #[trigger] points@[k].id == best,
        decreases points@.len() - i,
    {
        if points[i].id > best {
            best = points[i].id;
        }
        i = i + 1;
    }
    best
}

/// The largest vision class among the points, or 1 where none is larger.
pub fn max_vision_class(points: &[DecodedPoint]) -> (r: u8)
    ensures
        r >= 1,
        forall|k: int| 0 <= k < points@.len() ==> #[trigger] points@[k].vision_class <= r,
        r == 1 || exists|k: int| 0 <= k < points@.len() && #[trigger] points@[k].vision_class == r,
{
    let mut best: u8 = 1;
    let mut i: usize = 0;
    while i < points.len()
        invariant
            i <= points@.len(),
            best >= 1,
            forall|k: int| 0 <= k < i ==> #[trigger] points@[k].vision_class <= best,
            best == 1 || exists|k: int| 0 <= k < i && #[trigger] points@[k].vision_class == best,
        decreases points@.len() - i,
    {
        if points[i].vision_class > best {
            best = points[i].vision_class;
        }
        i = i + 1;
    }
    best
}

/// The positions of the clustered points, in order.
pub fn clustered_indices(points: &[DecodedPoint]) -> (r: Vec<usize>)
    ensures
        r@ == Seq::new(points@.len() as nat, |k: int| k).filter(|k: int| is_clustered(points@[k])).map_values(
            |k: int| k as usize,
        ),
{
    let ghost all = Seq::new(points@.len() as nat, |k: int| k);
    let ghost keep = |k: int| is_clustered(points@[k]);
    let mut out: Vec<usize> = Vec::new();
    let mut i: usize = 0;
    while i < points.len()
        invariant
            i <= points@.len(),
            all == Seq::new(points@.len() as nat, |k: int| k),
            keep == (|k: int| is_clustered(points@[k])),
            out@ == all.subrange(0, i as int).filter(keep).map_values(|k: int| k as usize),
        decreases points@.len() - i,
    {
        proof {
            let s = all.subrange(0, i as int + 1);
            assert(s.drop_last() =~= all.subrange(0, i as int));
            assert(s.last() == i as int);
            all.subrange(0, i as int).lemma_filter_push(i as int, keep);
            assert(all.subrange(0, i as int).push(i as int) =~= s);
        }
        if points[i].id > 0 {
            out.push(i);
            proof {
                let f = all.subrange(0, i as int).filter(keep);
                assert(f.push(i as int).map_values(|k: int| k as usize) =~= f.map_values(|k: int| k as usize).push(i));
            }
        }
        i = i + 1;
    }
    assert(all.subrange(0, points@.len() as int) =~= all);
    out
}

} // verus!
