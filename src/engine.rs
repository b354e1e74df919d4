use vstd::prelude::*;
use crate::color::ColorPoint;
use crate::cluster::{Cluster, ClusterError, centers_of};
use crate::assign::{members_of, fill_clusters, lemma_members_push, lemma_nearest_exists};
use crate::partition::{all_members, lemma_members_partition};
use crate::aggregate::{is_floor_mean, recompute_centers, aggregated};
use crate::seed::{seed_clusters, sample_centers};

verus! {

/// `result` is one full run from the given seed centers: cluster `i` holds
/// the colors of `points` nearest to `centers[i]`, in input order, and its
/// center is their floor mean, or `centers[i]` when it received none.
pub open spec fn single_pass(centers: Seq<ColorPoint>, points: Seq<ColorPoint>, result: Seq<Cluster>) -> bool {
    &&& result.len() == centers.len()
    &&& forall|i: int|
        0 <= i < centers.len() ==> {
            let m = members_of(centers, points, i);
            &&& (#[trigger] result[i]).points@ == m
            &&& if m.len() == 0 {
                result[i].center == centers[i]
            } else {
                is_floor_mean(result[i].center, m)
            }
        }
}

/// `centers` are `k` colors, each taken from `points`.
pub open spec fn seeds_from(points: Seq<ColorPoint>, k: int, centers: Seq<ColorPoint>) -> bool {
    &&& centers.len() == k
    &&& forall|i: int| 0 <= i < k ==> points.contains(#[trigger] centers[i])
}

/// `result` is a single pass from some `k` seed colors taken from `points`.
pub open spec fn run_from_input_seeds(points: Seq<ColorPoint>, k: int, result: Seq<Cluster>) -> bool {
    exists|centers: Seq<ColorPoint>|
        seeds_from(points, k, centers) && #[trigger] single_pass(centers, points, result)
}

/// One assignment pass of `points` against the fixed `centers`, then one
/// aggregation of each cluster.
pub fn cluster_with_centers(points: Vec<ColorPoint>, centers: &Vec<ColorPoint>) -> (r: Vec<Cluster>)
    ensures
        single_pass(centers@, points@, r@),
{
    let seeded = seed_clusters(centers);
    let ghost before = seeded@;
    assert(centers_of(before) =~= centers@);
    let mut clusters = fill_clusters(points, seeded);
    let ghost mid = clusters@;
    recompute_centers(&mut clusters);
    assert forall|i: int| 0 <= i < centers@.len() implies {
        let m = members_of(centers@, points@, i);
        &&& (#[trigger] clusters@[i]).points@ == m
        &&& if m.len() == 0 {
            clusters@[i].center == centers@[i]
        } else {
            is_floor_mean(clusters@[i].center, m)
        }
    } by {
        assert(aggregated(mid[i], clusters@[i]));
        assert(before[i].points@ + members_of(centers@, points@, i) =~= members_of(centers@, points@, i));
    }
    clusters
}

/// Clusters `points` into `k` groups: draws `k` seed colors from the input,
/// assigns every color to its nearest seed in one pass, and sets each
/// group's center to the floor mean of its members (a group without members
/// keeps its seed). With `k == 0` the result is empty; with no colors and
/// `k > 0` it fails with `EmptyInput`.
pub fn cluster_colors(points: Vec<ColorPoint>, k: usize) -> (r: Result<Vec<Cluster>, ClusterError>)
    ensures
        r is Err <==> k > 0 && points@.len() == 0,
        r matches Err(e) ==> e == ClusterError::EmptyInput,
        r matches Ok(cs) ==> run_from_input_seeds(points@, k as int, cs@),
{
    match sample_centers(&points, k) {
        Ok(centers) => {
            let ghost pts = points@;
            let cs = cluster_with_centers(points, &centers);
            assert(seeds_from(pts, k as int, centers@) && single_pass(centers@, pts, cs@));
            Ok(cs)
        },
        Err(e) => Err(e),
    }
}


/// A full run partitions the input: with at least one center, the clusters
/// together hold exactly the input colors, each as often as it occurs there,
/// and no color is held by two clusters.
pub proof fn lemma_run_partitions(centers: Seq<ColorPoint>, points: Seq<ColorPoint>, result: Seq<Cluster>)
    requires
        centers.len() > 0,
        single_pass(centers, points, result),
    ensures
        all_members(result).to_multiset() =~= points.to_multiset(),
        forall|i: int, j: int, p: ColorPoint|
            0 <= i < result.len() && 0 <= j < result.len() && #[trigger] result[i].points@.contains(p)
                && #[trigger] result[j].points@.contains(p) ==> i == j,
{
    lemma_members_partition(centers, points, result);
}

proof fn lemma_one_center_takes_all(center: ColorPoint, points: Seq<ColorPoint>)
    ensures
        members_of(seq![center], points, 0) == points,
    decreases points.len(),
{
    if points.len() == 0 {
        reveal(Seq::filter);
        assert(members_of(seq![center], points, 0) =~= points);
    } else {
        let rest = points.drop_last();
        let p = points.last();
        assert(rest.push(p) =~= points);
        lemma_one_center_takes_all(center, rest);
        lemma_nearest_exists(seq![center], p);
        lemma_members_push(seq![center], rest, p, 0);
    }
}

/// With a single seed, the one cluster holds every input color in input
/// order, and its center is the floor mean of the whole input (or the seed,
/// when there is no input).
pub proof fn lemma_single_cluster(center: ColorPoint, points: Seq<ColorPoint>, result: Seq<Cluster>)
    requires
        single_pass(seq![center], points, result),
    ensures
        result.len() == 1,
        result[0].points@ == points,
        points.len() > 0 ==> is_floor_mean(result[0].center, points),
        points.len() == 0 ==> result[0].center == center,
{
    lemma_one_center_takes_all(center, points);
    assert(result[0] == result[0]);
}

} // verus!
