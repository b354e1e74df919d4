use vstd::prelude::*;
use crate::color::{ColorPoint, dist_sq, squared_distance};
use crate::cluster::{Cluster, centers_of};

verus! {

/// `i` is the index of the nearest center to `p`: no center is closer, and
/// every center before `i` is strictly farther (ties go to the lowest index).
pub open spec fn is_nearest(centers: Seq<ColorPoint>, p: ColorPoint, i: int) -> bool {
    &&& 0 <= i < centers.len()
    &&& forall|j: int| 0 <= j < centers.len() ==> dist_sq(p, centers[i]) <= dist_sq(p, centers[j])
    &&& forall|j: int| 0 <= j < i ==> dist_sq(p, centers[i]) < dist_sq(p, centers[j])
}

/// The index of the cluster that `p` is assigned to.
pub open spec fn nearest_index(centers: Seq<ColorPoint>, p: ColorPoint) -> int {
    choose|i: int| is_nearest(centers, p, i)
}

/// At most one index is nearest.
pub proof fn lemma_nearest_unique(centers: Seq<ColorPoint>, p: ColorPoint, i: int, j: int)
    requires
        is_nearest(centers, p, i),
        is_nearest(centers, p, j),
    ensures
        i == j,
{
    if i < j {
        assert(dist_sq(p, centers[j]) < dist_sq(p, centers[i]));
    } else if j < i {
        assert(dist_sq(p, centers[i]) < dist_sq(p, centers[j]));
    }
}

/// Where some index is nearest, `nearest_index` is that index.
pub proof fn lemma_nearest_index_is(centers: Seq<ColorPoint>, p: ColorPoint, i: int)
    requires
        is_nearest(centers, p, i),
    ensures
        nearest_index(centers, p) == i,
{
    lemma_nearest_unique(centers, p, i, nearest_index(centers, p));
}

/// Every color has a nearest center among a non-empty set of centers.
pub proof fn lemma_nearest_exists(centers: Seq<ColorPoint>, p: ColorPoint) -> (i: int)
    requires
        centers.len() > 0,
    ensures
        is_nearest(centers, p, i),
        nearest_index(centers, p) == i,
    decreases centers.len(),
{
    let n = centers.len();
    let i = if n == 1 {
        0
    } else {
        let prefix = centers.drop_last();
        let k = lemma_nearest_exists(prefix, p);
        assert(forall|j: int| 0 <= j < n - 1 ==> prefix[j] == centers[j]);
        if dist_sq(p, centers[n - 1]) < dist_sq(p, centers[k]) {
            n - 1
        } else {
            k
        }
    };
    lemma_nearest_index_is(centers, p, i);
    i
}

/// The index of the center nearest to `p`, the lowest index among equals.
pub fn nearest_center(centers: &Vec<ColorPoint>, p: &ColorPoint) -> (i: usize)
    requires
        centers.len() > 0,
    ensures
        is_nearest(centers@, *p, i as int),
        i as int == nearest_index(centers@, *p),
{
    let mut best: usize = 0;
    let mut best_d: u32 = squared_distance(p, &centers[0]);
    let mut j: usize = 1;
    while j < centers.len()
        invariant
            1 <= j <= centers.len(),
            best < j,
            best_d as int == dist_sq(*p, centers@[best as int]),
            forall|m: int| 0 <= m < j ==> dist_sq(*p, centers@[best as int]) <= dist_sq(*p, centers@[m]),
            forall|m: int| 0 <= m < best ==> dist_sq(*p, centers@[best as int]) < dist_sq(*p, centers@[m]),
        decreases centers.len() - j,
    {
        let d = squared_distance(p, &centers[j]);
        if d < best_d {
            best = j;
            best_d = d;
        }
        j = j + 1;
    }
    proof {
        lemma_nearest_index_is(centers@, *p, best as int);
    }
    best
}


/// Whether a color is assigned to cluster `i` by the given centers.
pub open spec fn assigned_to(centers: Seq<ColorPoint>, i: int) -> spec_fn(ColorPoint) -> bool {
    |p: ColorPoint| nearest_index(centers, p) == i
}

/// The colors of `points` that one assignment pass puts in cluster `i`, in
/// their order in `points`.
pub open spec fn members_of(centers: Seq<ColorPoint>, points: Seq<ColorPoint>, i: int) -> Seq<
    ColorPoint,
> {
    points.filter(assigned_to(centers, i))
}

/// Appending one color adds it to its own cluster's members and to no other.
pub proof fn lemma_members_push(centers: Seq<ColorPoint>, points: Seq<ColorPoint>, p: ColorPoint, i: int)
    ensures
        members_of(centers, points.push(p), i) == if nearest_index(centers, p) == i {
            members_of(centers, points, i).push(p)
        } else {
            members_of(centers, points, i)
        },
{
    reveal(Seq::filter);
    assert(points.push(p).drop_last() =~= points);
}

/// The centers of `clusters`, index for index.
pub fn center_list(clusters: &Vec<Cluster>) -> (cs: Vec<ColorPoint>)
    ensures
        cs@ == centers_of(clusters@),
{
    let mut cs: Vec<ColorPoint> = Vec::with_capacity(clusters.len());
    let mut i: usize = 0;
    while i < clusters.len()
        invariant
            i <= clusters.len(),
            cs@ =~= centers_of(clusters@).take(i as int),
        decreases clusters.len() - i,
    {
        cs.push(clusters[i].center);
        i = i + 1;
        assert(cs@ =~= centers_of(clusters@).take(i as int));
    }
    assert(cs@ =~= centers_of(clusters@));
    cs
}

/// What one sequential assignment pass of `points` makes of `before`: every
/// cluster keeps its center, and its members grow by the colors nearest to
/// it, in input order.
pub open spec fn filled(before: Seq<Cluster>, points: Seq<ColorPoint>, after: Seq<Cluster>) -> bool {
    &&& after.len() == before.len()
    &&& forall|i: int|
        0 <= i < before.len() ==> (#[trigger] after[i]).center == before[i].center
            && after[i].points@ == before[i].points@ + members_of(centers_of(before), points, i)
}

/// Sequential assignment: each color, in order, is appended to the cluster
/// whose center is nearest to it. Centers are not changed. With no clusters
/// this does nothing.
pub fn fill_clusters(points: Vec<ColorPoint>, clusters: Vec<Cluster>) -> (r: Vec<Cluster>)
    ensures
        filled(clusters@, points@, r@),
{
    let ghost before = clusters@;
    let mut clusters = clusters;
    if clusters.len() == 0 {
        return clusters;
    }
    let centers = center_list(&clusters);
    let mut n: usize = 0;
    while n < points.len()
        invariant
            n <= points.len(),
            centers@ == centers_of(before),
            clusters@.len() == before.len(),
            before.len() > 0,
            forall|i: int|
                0 <= i < before.len() ==> (#[trigger] clusters@[i]).center == before[i].center
                    && clusters@[i].points@ == before[i].points@ + members_of(
                    centers@,
                    points@.take(n as int),
                    i,
                ),
        decreases points.len() - n,
    {
        let p = points[n];
        let idx = nearest_center(&centers, &p);
        clusters[idx].points.push(p);
        proof {
            assert(points@.take(n + 1) =~= points@.take(n as int).push(p));
            assert forall|i: int| 0 <= i < before.len() implies (#[trigger] clusters@[i]).center
                == before[i].center && clusters@[i].points@ == before[i].points@ + members_of(
                centers@,
                points@.take(n + 1),
                i,
            ) by {
                lemma_members_push(centers@, points@.take(n as int), p, i);
            }
        }
        n = n + 1;
    }
    assert(points@.take(n as int) =~= points@);
    clusters
}


/// Per-worker assignment: the colors of one chunk split into one bucket per
/// center, each bucket holding the chunk's colors nearest to that center, in
/// chunk order. Centers are only read.
pub fn assign_buckets(centers: &Vec<ColorPoint>, chunk: &[ColorPoint]) -> (b: Vec<Vec<ColorPoint>>)
    ensures
        b@.len() == centers@.len(),
        forall|i: int| 0 <= i < centers@.len() ==> (#[trigger] b@[i])@ == members_of(centers@, chunk@, i),
{
    let mut b: Vec<Vec<ColorPoint>> = Vec::with_capacity(centers.len());
    let mut i: usize = 0;
    while i < centers.len()
        invariant
            i <= centers@.len(),
            b@.len() == i,
            forall|j: int| 0 <= j < i ==> (#[trigger] b@[j])@ == Seq::<ColorPoint>::empty(),
        decreases centers@.len() - i,
    {
        b.push(Vec::new());
        i = i + 1;
    }
    if centers.len() == 0 {
        return b;
    }
    proof {
        reveal(Seq::filter);
        assert forall|j: int| 0 <= j < centers@.len() implies (#[trigger] b@[j])@ == members_of(
            centers@,
            chunk@.take(0),
            j,
        ) by {
            assert(chunk@.take(0).len() == 0);
        }
    }
    let mut n: usize = 0;
    while n < chunk.len()
        invariant
            n <= chunk@.len(),
            centers@.len() > 0,
            b@.len() == centers@.len(),
            forall|j: int|
                0 <= j < centers@.len() ==> (#[trigger] b@[j])@ == members_of(
                    centers@,
                    chunk@.take(n as int),
                    j,
                ),
        decreases chunk@.len() - n,
    {
        let p = chunk[n];
        let idx = nearest_center(centers, &p);
        b[idx].push(p);
        proof {
            assert(chunk@.take(n + 1) =~= chunk@.take(n as int).push(p));
            assert forall|j: int| 0 <= j < centers@.len() implies (#[trigger] b@[j])@ == members_of(
                centers@,
                chunk@.take(n + 1),
                j,
            ) by {
                lemma_members_push(centers@, chunk@.take(n as int), p, j);
            }
        }
        n = n + 1;
    }
    assert(chunk@.take(n as int) =~= chunk@);
    b
}

/// Bucket `i` of one worker's buckets, empty where the worker has none.
pub open spec fn bucket(buckets: Vec<Vec<ColorPoint>>, i: int) -> Seq<ColorPoint> {
    if 0 <= i < buckets@.len() {
        buckets@[i]@
    } else {
        Seq::empty()
    }
}

/// Bucket `i` of all workers, concatenated in worker order.
pub open spec fn merged_bucket(workers: Seq<Vec<Vec<ColorPoint>>>, i: int) -> Seq<ColorPoint>
    decreases workers.len(),
{
    if workers.len() == 0 {
        Seq::empty()
    } else {
        merged_bucket(workers.drop_last(), i) + bucket(workers.last(), i)
    }
}

/// What the merge step makes of `before`: every cluster keeps its center, and
/// its members grow by its buckets from all workers, in worker order.
pub open spec fn merged(before: Seq<Cluster>, workers: Seq<Vec<Vec<ColorPoint>>>, after: Seq<Cluster>) -> bool {
    &&& after.len() == before.len()
    &&& forall|i: int|
        0 <= i < before.len() ==> (#[trigger] after[i]).center == before[i].center
            && after[i].points@ == before[i].points@ + merged_bucket(workers, i)
}

fn append_points(dst: &mut Vec<ColorPoint>, src: &Vec<ColorPoint>)
    ensures
        final(dst)@ == old(dst)@ + src@,
{
    let ghost start = dst@;
    let mut n: usize = 0;
    while n < src.len()
        invariant
            n <= src@.len(),
            dst@ =~= start + src@.take(n as int),
        decreases src@.len() - n,
    {
        dst.push(src[n]);
        n = n + 1;
        assert(dst@ =~= start + src@.take(n as int));
    }
    assert(src@.take(n as int) =~= src@);
}

/// Merge step of parallel assignment: appends to each cluster its bucket from
/// every worker, in worker order. Centers are not changed; buckets past the
/// last cluster are ignored.
pub fn merge_buckets(clusters: Vec<Cluster>, workers: Vec<Vec<Vec<ColorPoint>>>) -> (r: Vec<Cluster>)
    ensures
        merged(clusters@, workers@, r@),
{
    let ghost before = clusters@;
    let mut clusters = clusters;
    let mut w: usize = 0;
    while w < workers.len()
        invariant
            w <= workers@.len(),
            clusters@.len() == before.len(),
            forall|i: int|
                0 <= i < before.len() ==> (#[trigger] clusters@[i]).center == before[i].center
                    && clusters@[i].points@ == before[i].points@ + merged_bucket(
                    workers@.take(w as int),
                    i,
                ),
        decreases workers@.len() - w,
    {
        let ghost mid = clusters@;
        let buckets = &workers[w];
        let mut i: usize = 0;
        while i < clusters.len() && i < buckets.len()
            invariant
                i <= clusters@.len(),
                clusters@.len() == before.len(),
                mid.len() == before.len(),
                forall|j: int|
                    0 <= j < before.len() ==> (#[trigger] clusters@[j]).center == mid[j].center
                        && clusters@[j].points@ == if j < i {
                        mid[j].points@ + bucket(*buckets, j)
                    } else {
                        mid[j].points@
                    },
            decreases clusters@.len() - i,
        {
            append_points(&mut clusters[i].points, &buckets[i]);
            i = i + 1;
        }
        proof {
            assert(workers@.take(w + 1).drop_last() =~= workers@.take(w as int));
            assert forall|j: int| 0 <= j < before.len() implies (#[trigger] clusters@[j]).center
                == before[j].center && clusters@[j].points@ == before[j].points@ + merged_bucket(
                workers@.take(w + 1),
                j,
            ) by {
                assert(mid[j] == mid[j]);
                if j >= i {
                    assert(bucket(*buckets, j) =~= Seq::<ColorPoint>::empty());
                }
            }
        }
        w = w + 1;
    }
    assert(workers@.take(w as int) =~= workers@);
    clusters
}

} // verus!
