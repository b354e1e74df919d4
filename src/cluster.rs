use vstd::prelude::*;
use crate::color::ColorPoint;

verus! {

/// A group of colors around a center. During assignment the center is frozen
/// and members are appended; afterwards the center may be replaced by the
/// members' mean color.
#[derive(Clone, Debug, PartialEq, Eq)]
pub struct Cluster {
    pub center: ColorPoint,
    pub points: Vec<ColorPoint>,
}

/// Why a clustering run produced no partition.
#[derive(Clone, Copy, Debug, PartialEq, Eq, Structural)]
pub enum ClusterError {
    /// At least one cluster was asked for, but there is no color to seed it with.
    EmptyInput,
}

impl Cluster {
    /// A cluster around `center` with no members yet: members come from
    /// assignment alone, so the seed is counted only if it is assigned.
    pub fn new(center: ColorPoint) -> (c: Cluster)
        ensures
            c.center == center,
            c.points@ == Seq::<ColorPoint>::empty(),
    {
        Cluster { center, points: Vec::new() }
    }
}

/// The centers of a sequence of clusters, index for index.
pub open spec fn centers_of(cs: Seq<Cluster>) -> Seq<ColorPoint> {
    cs.map_values(|c: Cluster| c.center)
}

} // verus!
