use palette_kmeans::{
    assign_buckets, center_list, cluster_colors, cluster_with_centers, fill_clusters,
    init_clusters, mean_color, merge_buckets, nearest_center, recompute_centers,
    sample_centers, seed_clusters, squared_distance, Cluster, ClusterError, ColorPoint,
};

fn cp(r: u8, g: u8, b: u8, a: u8) -> ColorPoint {
    ColorPoint::new(r, g, b, a)
}

fn sample_points() -> Vec<ColorPoint> {
    vec![
        cp(10, 20, 30, 255),
        cp(250, 240, 230, 255),
        cp(12, 18, 33, 250),
        cp(128, 128, 128, 128),
        cp(245, 250, 235, 255),
        cp(0, 0, 0, 0),
        cp(130, 120, 125, 130),
        cp(10, 20, 30, 255),
    ]
}

fn sample_centers_fixed() -> Vec<ColorPoint> {
    vec![cp(0, 0, 0, 255), cp(255, 255, 255, 255), cp(128, 128, 128, 128)]
}

#[test]
fn two_points_two_centers() {
    let black = cp(0, 0, 0, 255);
    let white = cp(255, 255, 255, 255);
    let points = vec![black, white];
    let centers = vec![black, white];
    let result = cluster_with_centers(points, &centers);
    assert_eq!(result.len(), 2);
    assert_eq!(result[0].points, vec![black]);
    assert_eq!(result[1].points, vec![white]);
    assert_eq!(result[0].center, black);
    assert_eq!(result[1].center, white);
}

#[test]
fn single_cluster_takes_all_with_floor_mean() {
    let points = vec![cp(10, 20, 30, 255), cp(11, 21, 31, 254), cp(0, 0, 0, 0)];
    let result = cluster_with_centers(points.clone(), &vec![cp(200, 200, 200, 200)]);
    assert_eq!(result.len(), 1);
    assert_eq!(result[0].points, points);
    // sums 21, 41, 61, 509 over three members
    assert_eq!(result[0].center, cp(7, 13, 20, 169));
}

#[test]
fn single_cluster_through_random_seeding() {
    let points = sample_points();
    let result = cluster_colors(points.clone(), 1).unwrap();
    assert_eq!(result.len(), 1);
    assert_eq!(result[0].points, points);
    assert_eq!(result[0].center, mean_color(&points).unwrap());
}

#[test]
fn zero_clusters_gives_empty_partition() {
    assert_eq!(cluster_colors(sample_points(), 0).unwrap().len(), 0);
    assert_eq!(cluster_colors(Vec::new(), 0).unwrap().len(), 0);
    assert_eq!(init_clusters(&sample_points(), 0).unwrap().len(), 0);
}

#[test]
fn empty_input_fails() {
    assert_eq!(cluster_colors(Vec::new(), 3).unwrap_err(), ClusterError::EmptyInput);
    assert_eq!(init_clusters(&Vec::new(), 1).unwrap_err(), ClusterError::EmptyInput);
    assert_eq!(sample_centers(&Vec::new(), 2).unwrap_err(), ClusterError::EmptyInput);
}

#[test]
fn assignment_partitions_input() {
    let points = sample_points();
    let clusters = seed_clusters(&sample_centers_fixed());
    let result = fill_clusters(points.clone(), clusters);
    assert_eq!(result.len(), 3);
    let mut all: Vec<ColorPoint> = result.iter().flat_map(|c| c.points.clone()).collect();
    let mut expected = points.clone();
    let key = |p: &ColorPoint| (p.r, p.g, p.b, p.a);
    all.sort_by_key(key);
    expected.sort_by_key(key);
    assert_eq!(all, expected);
    assert_eq!(
        result[0].points,
        vec![cp(10, 20, 30, 255), cp(12, 18, 33, 250), cp(0, 0, 0, 0), cp(10, 20, 30, 255)]
    );
    assert_eq!(result[1].points, vec![cp(250, 240, 230, 255), cp(245, 250, 235, 255)]);
    assert_eq!(
        result[2].points,
        vec![cp(128, 128, 128, 128), cp(130, 120, 125, 130)]
    );
}

#[test]
fn run_partitions_input_with_more_clusters_than_points() {
    let points = vec![cp(1, 2, 3, 4), cp(9, 9, 9, 9)];
    let result = cluster_colors(points.clone(), 5).unwrap();
    assert_eq!(result.len(), 5);
    let total: usize = result.iter().map(|c| c.points.len()).sum();
    assert_eq!(total, 2);
    for c in &result {
        assert!(points.contains(&c.center));
    }
}

#[test]
fn sequential_assignment_is_deterministic() {
    let first = fill_clusters(sample_points(), seed_clusters(&sample_centers_fixed()));
    let second = fill_clusters(sample_points(), seed_clusters(&sample_centers_fixed()));
    assert_eq!(first, second);
}

#[test]
fn parallel_buckets_match_sequential() {
    let points = sample_points();
    let centers = sample_centers_fixed();
    let sequential = fill_clusters(points.clone(), seed_clusters(&centers));
    let workers: Vec<Vec<Vec<ColorPoint>>> = points
        .chunks(3)
        .map(|chunk| assign_buckets(&centers, chunk))
        .collect();
    let parallel = merge_buckets(seed_clusters(&centers), workers);
    assert_eq!(parallel, sequential);
}

#[test]
fn parallel_buckets_in_other_order_keep_member_sets() {
    let points = sample_points();
    let centers = sample_centers_fixed();
    let sequential = fill_clusters(points.clone(), seed_clusters(&centers));
    let mut workers: Vec<Vec<Vec<ColorPoint>>> = points
        .chunks(2)
        .map(|chunk| assign_buckets(&centers, chunk))
        .collect();
    workers.reverse();
    let parallel = merge_buckets(seed_clusters(&centers), workers);
    let key = |p: &ColorPoint| (p.r, p.g, p.b, p.a);
    for (a, b) in parallel.iter().zip(sequential.iter()) {
        assert_eq!(a.center, b.center);
        let mut x = a.points.clone();
        let mut y = b.points.clone();
        x.sort_by_key(key);
        y.sort_by_key(key);
        assert_eq!(x, y);
    }
}

#[test]
fn buckets_without_centers_are_empty() {
    let buckets = assign_buckets(&Vec::new(), &sample_points());
    assert!(buckets.is_empty());
    let merged = merge_buckets(Vec::new(), vec![vec![vec![cp(1, 1, 1, 1)]]]);
    assert!(merged.is_empty());
}

#[test]
fn merge_ignores_extra_buckets_and_appends() {
    let clusters = vec![Cluster { center: cp(0, 0, 0, 0), points: vec![cp(5, 5, 5, 5)] }];
    let workers = vec![
        vec![vec![cp(1, 1, 1, 1)], vec![cp(9, 9, 9, 9)]],
        vec![],
        vec![vec![cp(2, 2, 2, 2)]],
    ];
    let merged = merge_buckets(clusters, workers);
    assert_eq!(merged.len(), 1);
    assert_eq!(merged[0].points, vec![cp(5, 5, 5, 5), cp(1, 1, 1, 1), cp(2, 2, 2, 2)]);
}

#[test]
fn floor_mean_per_channel() {
    let members = vec![cp(1, 2, 3, 4), cp(2, 2, 2, 2), cp(2, 3, 5, 255)];
    // sums 5, 7, 10, 261 over three members
    assert_eq!(mean_color(&members), Some(cp(1, 2, 3, 87)));
    assert_eq!(mean_color(&vec![cp(255, 255, 255, 255); 4]), Some(cp(255, 255, 255, 255)));
    assert_eq!(mean_color(&Vec::new()), None);
}

#[test]
fn recompute_keeps_center_of_empty_cluster() {
    let mut clusters = vec![
        Cluster { center: cp(9, 8, 7, 6), points: Vec::new() },
        Cluster { center: cp(0, 0, 0, 0), points: vec![cp(10, 10, 10, 10), cp(21, 0, 3, 255)] },
    ];
    recompute_centers(&mut clusters);
    assert_eq!(clusters[0].center, cp(9, 8, 7, 6));
    assert!(clusters[0].points.is_empty());
    assert_eq!(clusters[1].center, cp(15, 5, 6, 132));
    assert_eq!(clusters[1].points.len(), 2);
}

#[test]
fn distance_is_symmetric_and_zero_on_self() {
    let a = cp(0, 0, 0, 255);
    let b = cp(255, 255, 255, 255);
    assert_eq!(squared_distance(&a, &b), 195075);
    assert_eq!(squared_distance(&b, &a), 195075);
    assert_eq!(squared_distance(&a, &a), 0);
    let c = cp(3, 1, 4, 1);
    let d = cp(5, 9, 2, 6);
    assert_eq!(squared_distance(&c, &d), 4 + 64 + 4 + 25);
    assert_eq!(squared_distance(&d, &c), 97);
    assert_eq!(squared_distance(&cp(0, 0, 0, 0), &cp(255, 255, 255, 255)), 260100);
}

#[test]
fn tie_goes_to_lower_index() {
    let p = cp(100, 100, 100, 100);
    let centers = vec![cp(110, 100, 100, 100), cp(90, 100, 100, 100), cp(100, 90, 100, 100)];
    assert_eq!(nearest_center(&centers, &p), 0);
    let result = fill_clusters(vec![p], seed_clusters(&centers));
    assert_eq!(result[0].points, vec![p]);
    assert!(result[1].points.is_empty());
    assert!(result[2].points.is_empty());
}

#[test]
fn nearest_center_picks_strictly_closest() {
    let centers = vec![cp(0, 0, 0, 0), cp(50, 50, 50, 50), cp(49, 50, 50, 50)];
    assert_eq!(nearest_center(&centers, &cp(48, 48, 48, 48)), 2);
    assert_eq!(nearest_center(&centers, &cp(60, 60, 60, 60)), 1);
    assert_eq!(nearest_center(&centers, &cp(1, 1, 1, 1)), 0);
}

#[test]
fn duplicate_centers_leave_later_copy_empty() {
    let c = cp(7, 7, 7, 7);
    let points = vec![cp(6, 6, 6, 6), cp(8, 8, 8, 8)];
    let result = cluster_with_centers(points.clone(), &vec![c, c]);
    assert_eq!(result[0].points, points);
    assert!(result[1].points.is_empty());
    assert_eq!(result[1].center, c);
    assert_eq!(result[0].center, c);
}

#[test]
fn seeding_draws_from_input() {
    let points = sample_points();
    let centers = sample_centers(&points, 20).unwrap();
    assert_eq!(centers.len(), 20);
    assert!(centers.iter().all(|c| points.contains(c)));
    let clusters = init_clusters(&points, 4).unwrap();
    assert_eq!(clusters.len(), 4);
    for c in &clusters {
        assert!(points.contains(&c.center));
        assert!(c.points.is_empty());
    }
    let only = vec![cp(1, 2, 3, 4)];
    assert_eq!(sample_centers(&only, 3).unwrap(), vec![cp(1, 2, 3, 4); 3]);
}

#[test]
fn center_list_and_seed_clusters_keep_order() {
    let centers = sample_centers_fixed();
    let clusters = seed_clusters(&centers);
    assert_eq!(center_list(&clusters), centers);
    assert!(clusters.iter().all(|c| c.points.is_empty()));
}

#[test]
fn fill_without_clusters_is_noop() {
    let result = fill_clusters(sample_points(), Vec::new());
    assert!(result.is_empty());
}

#[test]
fn channels_in_rgba_order() {
    assert_eq!(cp(1, 2, 3, 4).channels(), [1, 2, 3, 4]);
}
