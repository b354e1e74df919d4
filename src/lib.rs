//! Single-pass color clustering: pixels are grouped around seed colors by
//! nearest squared Euclidean distance, and each group reports its mean color.

pub mod color;
pub mod cluster;
pub mod assign;
pub mod aggregate;
pub mod partition;
pub mod seed;
pub mod engine;

pub use color::{ColorPoint, squared_distance};
pub use cluster::{Cluster, ClusterError};
pub use assign::{nearest_center, center_list, fill_clusters, assign_buckets, merge_buckets};
pub use aggregate::{mean_color, recompute_centers};
pub use seed::{seed_clusters, sample_centers, init_clusters};
pub use engine::{cluster_with_centers, cluster_colors};
