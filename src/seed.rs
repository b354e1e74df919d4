use vstd::prelude::*;
use rand::seq::IteratorRandom;
use crate::color::ColorPoint;
use crate::cluster::{Cluster, ClusterError};

verus! {

/// Relies on rand's `IteratorRandom::choose` over a slice iterator, whose
/// size is exact: it gives `None` exactly when the slice is empty, and
/// otherwise one of its items, drawn with the thread-local generator.
#[verifier::external_body]
fn choose_seed(points: &Vec<ColorPoint>) -> (r: Option<ColorPoint>)
    ensures
        points@.len() == 0 <==> r is None,
        r matches Some(p) ==> points@.contains(p),
{
    points.iter().choose(&mut rand::thread_rng()).copied()
}

/// One cluster per given center, in order, each without members.
pub fn seed_clusters(centers: &Vec<ColorPoint>) -> (cs: Vec<Cluster>)
    ensures
        cs@.len() == centers@.len(),
        forall|i: int|
            0 <= i < centers@.len() ==> (#[trigger] cs@[i]).center == centers@[i]
                && cs@[i].points@.len() == 0,
{
    let mut cs: Vec<Cluster> = Vec::with_capacity(centers.len());
    let mut i: usize = 0;
    while i < centers.len()
        invariant
            i <= centers@.len(),
            cs@.len() == i,
            forall|j: int|
                0 <= j < i ==> (#[trigger] cs@[j]).center == centers@[j] && cs@[j].points@.len() == 0,
        decreases centers@.len() - i,
    {
        cs.push(Cluster::new(centers[i]));
        i = i + 1;
    }
    cs
}

/// Draws `k` seed colors from `points`, each independently and uniformly, with
/// replacement: equal seeds may occur and are kept.
pub fn sample_centers(points: &Vec<ColorPoint>, k: usize) -> (r: Result<Vec<ColorPoint>, ClusterError>)
    ensures
        r is Err <==> k > 0 && points@.len() == 0,
        r matches Err(e) ==> e == ClusterError::EmptyInput,
        r matches Ok(cs) ==> cs@.len() == k && forall|i: int|
            0 <= i < k ==> points@.contains(#[trigger] cs@[i]),
{
    let mut cs: Vec<ColorPoint> = Vec::with_capacity(k);
    let mut i: usize = 0;
    while i < k
        invariant
            i <= k,
            cs@.len() == i,
            i > 0 ==> points@.len() > 0,
            forall|j: int| 0 <= j < i ==> points@.contains(#[trigger] cs@[j]),
        decreases k - i,
    {
        match choose_seed(points) {
            Some(p) => cs.push(p),
            None => {
                return Err(ClusterError::EmptyInput);
            },
        }
        i = i + 1;
    }
    Ok(cs)
}

/// `k` clusters without members, each around a seed color drawn from `points`
/// (see `sample_centers`). With `k == 0` this gives no clusters; with no
/// colors and `k > 0` it fails with `EmptyInput`.
pub fn init_clusters(points: &Vec<ColorPoint>, k: usize) -> (r: Result<Vec<Cluster>, ClusterError>)
    ensures
        r is Err <==> k > 0 && points@.len() == 0,
        r matches Err(e) ==> e == ClusterError::EmptyInput,
        r matches Ok(cs) ==> cs@.len() == k && forall|i: int|
            0 <= i < k ==> points@.contains(#[trigger] cs@[i].center) && cs@[i].points@.len() == 0,
{
    match sample_centers(points, k) {
        Ok(centers) => Ok(seed_clusters(&centers)),
        Err(e) => Err(e),
    }
}

} // verus!
