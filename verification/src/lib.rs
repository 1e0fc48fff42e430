//! Connection paths and neighbourhoods in a similarity graph of music artists.
//!
//! The graph is stored in binary adjacency files that are read in place; an
//! index maps each artist to the offset of its record. On top of the record
//! reader stand a bidirectional path search (breadth first, or by best
//! similarity), a budgeted explorer around one artist, and an explorer that
//! decorates a found path with the artists closest to it.

pub mod algorithm;
pub mod artist_details;
pub mod benchmark;
pub mod cache_conversion;
pub mod cache_types;
pub mod cli;
pub mod clock;
pub mod codec;
pub mod enhanced_pathfinding;
pub mod exploration;
pub mod fx;
pub mod graph_response;
pub mod json_output;
pub mod lastfm;
pub mod models;
pub mod parsing;
pub mod path_response;
pub mod pathfinding;
pub mod pathfinding_config;
pub mod similarity;
pub mod state;
pub mod string_normalization;
pub mod utils;

pub use algorithm::Algorithm;
pub use pathfinding::bfs::bfs_find_path;
pub use pathfinding::dijkstra::dijkstra_find_path;
pub use pathfinding::utils::get_artist_connections;
pub use exploration::explore_bfs;
pub use exploration::explore_dijkstra;
pub use exploration::ExplorationResult;
pub use exploration::ExplorationStats;
pub use parsing::find_artist_id;
pub use parsing::parse_unified_metadata;
pub use parsing::Artist;
pub use pathfinding::bfs::neighborhood::BiDirectionalGraphs;
pub use pathfinding::find_paths_with_exploration;
pub use pathfinding::utils::EnhancedPathResult;
pub use pathfinding_config::PathfindingConfig;
pub use utils::format_number;
