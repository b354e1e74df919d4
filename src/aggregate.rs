use vstd::prelude::*;
use crate::color::ColorPoint;
use crate::cluster::Cluster;

verus! {

/// Channel `c` of a color: 0 red, 1 green, 2 blue, 3 alpha.
pub open spec fn channel(p: ColorPoint, c: int) -> int {
    if c == 0 {
        p.r as int
    } else if c == 1 {
        p.g as int
    } else if c == 2 {
        p.b as int
    } else {
        p.a as int
    }
}

/// The sum of channel `c` over all colors of `s`.
pub open spec fn channel_sum(s: Seq<ColorPoint>, c: int) -> int
    decreases s.len(),
{
    if s.len() == 0 {
        0
    } else {
        channel_sum(s.drop_last(), c) + channel(s.last(), c)
    }
}

/// `m` is the channel-wise floor mean of the non-empty sequence `s`.
pub open spec fn is_floor_mean(m: ColorPoint, s: Seq<ColorPoint>) -> bool {
    &&& s.len() > 0
    &&& forall|c: int| 0 <= c < 4 ==> #[trigger] channel(m, c) == channel_sum(s, c) / (s.len() as int)
}

proof fn lemma_channel_sum_bounds(s: Seq<ColorPoint>, c: int)
    ensures
        0 <= channel_sum(s, c) <= 255 * s.len(),
    decreases s.len(),
{
    if s.len() > 0 {
        lemma_channel_sum_bounds(s.drop_last(), c);
    }
}

fn channel_exec(p: &ColorPoint, c: usize) -> (v: u8)
    requires
        c < 4,
    ensures
        v as int == channel(*p, c as int),
{
    if c == 0 {
        p.r
    } else if c == 1 {
        p.g
    } else if c == 2 {
        p.b
    } else {
        p.a
    }
}

/// The floor of the mean of channel `c` over a non-empty list of colors.
fn channel_mean(points: &Vec<ColorPoint>, c: usize) -> (m: u8)
    requires
        points.len() > 0,
        c < 4,
    ensures
        m as int == channel_sum(points@, c as int) / (points.len() as int),
{
    let mut sum: u128 = 0;
    let mut i: usize = 0;
    while i < points.len()
        invariant
            i <= points.len(),
            c < 4,
            sum as int == channel_sum(points@.take(i as int), c as int),
            sum <= 255 * i,
        decreases points.len() - i,
    {
        proof {
            assert(points@.take(i + 1).drop_last() =~= points@.take(i as int));
        }
        sum = sum + channel_exec(&points[i], c) as u128;
        i = i + 1;
    }
    assert(points@.take(i as int) =~= points@);
    let n = points.len() as u128;
    let m = sum / n;
    assert(m <= 255) by (nonlinear_arith)
        requires
            m == sum / n,
            sum <= 255 * n,
            n > 0,
    ;
    m as u8
}

/// The channel-wise floor mean of a list of colors, or `None` when it is
/// empty (there is nothing to divide by).
pub fn mean_color(points: &Vec<ColorPoint>) -> (m: Option<ColorPoint>)
    ensures
        points.len() == 0 <==> m is None,
        m matches Some(c) ==> is_floor_mean(c, points@),
{
    if points.len() == 0 {
        return None;
    }
    let c = ColorPoint {
        r: channel_mean(points, 0),
        g: channel_mean(points, 1),
        b: channel_mean(points, 2),
        a: channel_mean(points, 3),
    };
    assert forall|k: int| 0 <= k < 4 implies #[trigger] channel(c, k) == channel_sum(points@, k) / (
    points.len() as int) by {
        assert(k == 0 || k == 1 || k == 2 || k == 3);
    }
    Some(c)
}

/// What aggregation makes of a cluster: its members stay, and its center
/// becomes their floor mean, or stays as it was when it has no members.
pub open spec fn aggregated(before: Cluster, after: Cluster) -> bool {
    &&& after.points@ == before.points@
    &&& if before.points@.len() == 0 {
        after.center == before.center
    } else {
        is_floor_mean(after.center, before.points@)
    }
}

/// Replaces each cluster's center by the floor mean of its members. A cluster
/// with no members keeps its center.
pub fn recompute_centers(clusters: &mut Vec<Cluster>)
    ensures
        final(clusters)@.len() == old(clusters)@.len(),
        forall|i: int|
            0 <= i < old(clusters)@.len() ==> aggregated(
                #[trigger] old(clusters)@[i],
                final(clusters)@[i],
            ),
{
    let ghost before = clusters@;
    let mut i: usize = 0;
    while i < clusters.len()
        invariant
            i <= clusters@.len(),
            clusters@.len() == before.len(),
            forall|j: int| 0 <= j < i ==> aggregated(#[trigger] before[j], clusters@[j]),
            forall|j: int| i <= j < before.len() ==> #[trigger] clusters@[j] == before[j],
        decreases clusters@.len() - i,
    {
        match mean_color(&clusters[i].points) {
            Some(m) => {
                clusters[i].center = m;
            },
            None => {},
        }
        i = i + 1;
    }
}

} // verus!
