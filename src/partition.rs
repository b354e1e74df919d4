use vstd::prelude::*;
use vstd::seq_lib::lemma_multiset_commutative;
use crate::color::{ColorPoint, dist_sq};
use crate::cluster::{Cluster, centers_of};
use crate::assign::{
    nearest_index, assigned_to, members_of, lemma_members_push, lemma_nearest_exists,
    filled, merged, merged_bucket,
};

verus! {

/// The members of clusters `0 .. n`, concatenated in cluster order.
pub open spec fn concat_members(centers: Seq<ColorPoint>, points: Seq<ColorPoint>, n: int) -> Seq<
    ColorPoint,
>
    decreases n,
{
    if n <= 0 {
        Seq::empty()
    } else {
        concat_members(centers, points, n - 1) + members_of(centers, points, n - 1)
    }
}

/// All members of a sequence of clusters, concatenated in cluster order.
pub open spec fn all_members(clusters: Seq<Cluster>) -> Seq<ColorPoint>
    decreases clusters.len(),
{
    if clusters.len() == 0 {
        Seq::empty()
    } else {
        all_members(clusters.drop_last()) + clusters.last().points@
    }
}

proof fn lemma_concat_members_push(centers: Seq<ColorPoint>, points: Seq<ColorPoint>, p: ColorPoint, n: int)
    requires
        n >= 0,
    ensures
        concat_members(centers, points.push(p), n).to_multiset() =~= if nearest_index(centers, p) < n
            && nearest_index(centers, p) >= 0 {
            concat_members(centers, points, n).to_multiset().insert(p)
        } else {
            concat_members(centers, points, n).to_multiset()
        },
    decreases n,
{
    broadcast use vstd::seq_lib::group_to_multiset_ensures;
    if n > 0 {
        lemma_concat_members_push(centers, points, p, n - 1);
        lemma_members_push(centers, points, p, n - 1);
        lemma_multiset_commutative(
            concat_members(centers, points.push(p), n - 1),
            members_of(centers, points.push(p), n - 1),
        );
        lemma_multiset_commutative(
            concat_members(centers, points, n - 1),
            members_of(centers, points, n - 1),
        );
    }
}

proof fn lemma_concat_members_all(centers: Seq<ColorPoint>, points: Seq<ColorPoint>)
    requires
        centers.len() > 0,
    ensures
        concat_members(centers, points, centers.len() as int).to_multiset() =~= points.to_multiset(),
    decreases points.len(),
{
    broadcast use vstd::seq_lib::group_to_multiset_ensures;
    if points.len() > 0 {
        let rest = points.drop_last();
        let p = points.last();
        assert(rest.push(p) =~= points);
        lemma_concat_members_all(centers, rest);
        lemma_nearest_exists(centers, p);
        lemma_concat_members_push(centers, rest, p, centers.len() as int);
    } else {
        lemma_concat_members_none(centers, points, centers.len() as int);
    }
}

proof fn lemma_concat_members_none(centers: Seq<ColorPoint>, points: Seq<ColorPoint>, n: int)
    requires
        points.len() == 0,
    ensures
        concat_members(centers, points, n) =~= Seq::<ColorPoint>::empty(),
    decreases n,
{
    reveal(Seq::filter);
    if n > 0 {
        lemma_concat_members_none(centers, points, n - 1);
    }
}

proof fn lemma_all_members_concat(centers: Seq<ColorPoint>, points: Seq<ColorPoint>, after: Seq<Cluster>, n: int)
    requires
        after.len() == centers.len(),
        forall|i: int| 0 <= i < after.len() ==> (#[trigger] after[i]).points@ == members_of(centers, points, i),
        0 <= n <= after.len(),
    ensures
        all_members(after.take(n)) =~= concat_members(centers, points, n),
    decreases n,
{
    if n > 0 {
        lemma_all_members_concat(centers, points, after, n - 1);
        assert(after.take(n).drop_last() =~= after.take(n - 1));
        assert(after[n - 1] == after[n - 1]);
    }
}

/// Clusters that hold, each, the members that one pass gives them under
/// non-empty `centers` partition the input: together they hold exactly the
/// input colors, each as often as it occurs there, and no color is held by
/// two clusters.
pub proof fn lemma_members_partition(centers: Seq<ColorPoint>, points: Seq<ColorPoint>, after: Seq<Cluster>)
    requires
        centers.len() > 0,
        after.len() == centers.len(),
        forall|i: int| 0 <= i < after.len() ==> (#[trigger] after[i]).points@ == members_of(centers, points, i),
    ensures
        all_members(after).to_multiset() =~= points.to_multiset(),
        forall|i: int, j: int, p: ColorPoint|
            0 <= i < after.len() && 0 <= j < after.len() && #[trigger] after[i].points@.contains(p)
                && #[trigger] after[j].points@.contains(p) ==> i == j,
{
    broadcast use vstd::seq_lib::group_filter_ensures;
    lemma_all_members_concat(centers, points, after, after.len() as int);
    assert(after.take(after.len() as int) =~= after);
    lemma_concat_members_all(centers, points);
    assert forall|i: int, j: int, p: ColorPoint|
        0 <= i < after.len() && 0 <= j < after.len() && #[trigger] after[i].points@.contains(p)
            && #[trigger] after[j].points@.contains(p) implies i == j by {
        let mi = members_of(centers, points, i);
        let mj = members_of(centers, points, j);
        assert(after[i].points@ == mi);
        assert(after[j].points@ == mj);
        let a = choose|a: int| 0 <= a < mi.len() && mi[a] == p;
        let b = choose|b: int| 0 <= b < mj.len() && mj[b] == p;
        assert(assigned_to(centers, i)(mi[a]));
        assert(assigned_to(centers, j)(mj[b]));
    }
}

/// One assignment pass over clusters that start without members partitions
/// the input: together the clusters hold exactly the input colors, each as
/// often as it occurs there, and a color held by two clusters is impossible.
pub proof fn lemma_fill_partitions(before: Seq<Cluster>, points: Seq<ColorPoint>, after: Seq<Cluster>)
    requires
        before.len() > 0,
        forall|i: int| 0 <= i < before.len() ==> (#[trigger] before[i]).points@.len() == 0,
        filled(before, points, after),
    ensures
        all_members(after).to_multiset() =~= points.to_multiset(),
        forall|i: int, j: int, p: ColorPoint|
            0 <= i < after.len() && 0 <= j < after.len() && #[trigger] after[i].points@.contains(p)
                && #[trigger] after[j].points@.contains(p) ==> i == j,
{
    let cs = centers_of(before);
    assert forall|i: int| 0 <= i < after.len() implies (#[trigger] after[i]).points@ == members_of(cs, points, i) by {
        assert(before[i].points@ + members_of(cs, points, i) =~= members_of(cs, points, i));
    }
    lemma_members_partition(cs, points, after);
}

/// The sequential pass is deterministic: two runs on the same clusters and
/// the same colors give the same centers and the same member lists.
pub proof fn lemma_fill_deterministic(
    before: Seq<Cluster>,
    points: Seq<ColorPoint>,
    first: Seq<Cluster>,
    second: Seq<Cluster>,
)
    requires
        filled(before, points, first),
        filled(before, points, second),
    ensures
        first.len() == second.len(),
        forall|i: int|
            0 <= i < first.len() ==> (#[trigger] first[i]).center == second[i].center
                && first[i].points@ == second[i].points@,
{
    assert forall|i: int| 0 <= i < first.len() implies (#[trigger] first[i]).center
        == second[i].center && first[i].points@ == second[i].points@ by {
        assert(first[i] == first[i] && second[i] == second[i]);
    }
}

/// Of two centers at the same distance from a color, the later one never
/// receives it; and when no center is closer than those two, the color goes
/// to the earlier one or to an even earlier center at that same distance.
pub proof fn lemma_tie_goes_to_lower_index(centers: Seq<ColorPoint>, p: ColorPoint, i: int, j: int)
    requires
        0 <= i < j < centers.len(),
        dist_sq(p, centers[i]) == dist_sq(p, centers[j]),
    ensures
        nearest_index(centers, p) != j,
        (forall|m: int| 0 <= m < centers.len() ==> dist_sq(p, centers[i]) <= #[trigger] dist_sq(p, centers[m]))
            ==> nearest_index(centers, p) <= i,
{
    let k = lemma_nearest_exists(centers, p);
    assert(dist_sq(p, centers[k]) <= dist_sq(p, centers[i]));
    if k > i {
        assert(dist_sq(p, centers[k]) < dist_sq(p, centers[i]));
    }
}


/// `workers` holds, for each chunk, the buckets that per-worker assignment
/// gives for it under `centers`.
pub open spec fn bucketed(
    centers: Seq<ColorPoint>,
    chunks: Seq<Seq<ColorPoint>>,
    workers: Seq<Vec<Vec<ColorPoint>>>,
) -> bool {
    &&& workers.len() == chunks.len()
    &&& forall|w: int| 0 <= w < workers.len() ==> (#[trigger] workers[w])@.len() == centers.len()
    &&& forall|w: int, i: int|
        0 <= w < workers.len() && 0 <= i < centers.len() ==> (#[trigger] workers[w]@[i])@
            == members_of(centers, chunks[w], i)
}

proof fn lemma_merged_bucket_flatten(
    centers: Seq<ColorPoint>,
    chunks: Seq<Seq<ColorPoint>>,
    workers: Seq<Vec<Vec<ColorPoint>>>,
    i: int,
)
    requires
        bucketed(centers, chunks, workers),
        0 <= i < centers.len(),
    ensures
        merged_bucket(workers, i) == members_of(centers, chunks.flatten(), i),
    decreases workers.len(),
{
    reveal(Seq::filter);
    if workers.len() == 0 {
        assert(chunks.flatten() =~= Seq::<ColorPoint>::empty());
    } else {
        let n = workers.len() - 1;
        let wp = workers.drop_last();
        let cp = chunks.drop_last();
        assert(bucketed(centers, cp, wp)) by {
            assert forall|w: int, j: int|
                0 <= w < wp.len() && 0 <= j < centers.len() implies (#[trigger] wp[w]@[j])@
                == members_of(centers, cp[w], j) by {
                assert(wp[w] == workers[w]);
            }
        }
        lemma_merged_bucket_flatten(centers, cp, wp, i);
        assert(cp.push(chunks.last()) =~= chunks);
        cp.lemma_flatten_push(chunks.last());
        Seq::filter_distributes_over_add(cp.flatten(), chunks.last(), assigned_to(centers, i));
        assert(workers[n]@[i]@ == members_of(centers, chunks[n], i));
    }
}

proof fn lemma_members_count(centers: Seq<ColorPoint>, points: Seq<ColorPoint>, i: int, x: ColorPoint)
    ensures
        members_of(centers, points, i).to_multiset().count(x) == if nearest_index(centers, x) == i {
            points.to_multiset().count(x)
        } else {
            0
        },
    decreases points.len(),
{
    broadcast use vstd::seq_lib::group_to_multiset_ensures;
    if points.len() == 0 {
        reveal(Seq::filter);
    } else {
        let rest = points.drop_last();
        let p = points.last();
        assert(rest.push(p) =~= points);
        lemma_members_count(centers, rest, i, x);
        lemma_members_push(centers, rest, p, i);
    }
}

/// A cluster's members depend on the input colors as a multiset only: two
/// inputs that hold the same colors equally often, in any order, give every
/// cluster the same members equally often.
pub proof fn lemma_members_order_free(centers: Seq<ColorPoint>, first: Seq<ColorPoint>, second: Seq<ColorPoint>, i: int)
    requires
        first.to_multiset() == second.to_multiset(),
    ensures
        members_of(centers, first, i).to_multiset() =~= members_of(centers, second, i).to_multiset(),
{
    assert forall|x: ColorPoint| #[trigger] members_of(centers, first, i).to_multiset().count(x)
        == members_of(centers, second, i).to_multiset().count(x) by {
        lemma_members_count(centers, first, i, x);
        lemma_members_count(centers, second, i, x);
    }
}

/// Parallel assignment agrees with sequential assignment: when the chunks
/// that the workers assigned hold the input colors equally often, each
/// cluster ends with the same center and the same members equally often;
/// when the chunks, in order, are the input, the member lists are equal.
pub proof fn lemma_parallel_matches_sequential(
    before: Seq<Cluster>,
    points: Seq<ColorPoint>,
    chunks: Seq<Seq<ColorPoint>>,
    workers: Seq<Vec<Vec<ColorPoint>>>,
    sequential: Seq<Cluster>,
    parallel: Seq<Cluster>,
)
    requires
        filled(before, points, sequential),
        bucketed(centers_of(before), chunks, workers),
        merged(before, workers, parallel),
        chunks.flatten().to_multiset() == points.to_multiset(),
    ensures
        parallel.len() == sequential.len(),
        forall|i: int|
            0 <= i < parallel.len() ==> (#[trigger] parallel[i]).center == sequential[i].center
                && parallel[i].points@.to_multiset() =~= sequential[i].points@.to_multiset(),
        chunks.flatten() == points ==> forall|i: int|
            0 <= i < parallel.len() ==> (#[trigger] parallel[i]).points@ == sequential[i].points@,
{
    broadcast use vstd::seq_lib::lemma_multiset_commutative;
    let cs = centers_of(before);
    assert forall|i: int| 0 <= i < parallel.len() implies (#[trigger] parallel[i]).center
        == sequential[i].center && parallel[i].points@.to_multiset()
        =~= sequential[i].points@.to_multiset() by {
        lemma_merged_bucket_flatten(cs, chunks, workers, i);
        lemma_members_order_free(cs, chunks.flatten(), points, i);
        assert(sequential[i] == sequential[i]);
    }
    if chunks.flatten() == points {
        assert forall|i: int| 0 <= i < parallel.len() implies (#[trigger] parallel[i]).points@
            == sequential[i].points@ by {
            lemma_merged_bucket_flatten(cs, chunks, workers, i);
            assert(sequential[i] == sequential[i]);
        }
    }
}

} // verus!
