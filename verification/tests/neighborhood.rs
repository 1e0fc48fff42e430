// The neighbourhood of a path.

use artistpath_core::pathfinding::bfs::neighborhood::{
    analyze_neighbor_connectivity, collect_path_connections, explore_path_neighborhood,
    merge_connections, prioritize_neighbors, NeighborInfo,
};
use artistpath_core::{BiDirectionalGraphs, PathfindingConfig};
use byteorder::{LittleEndian, WriteBytesExt};
use rustc_hash::FxHashMap;
use uuid::Uuid;

fn write_record(file: &mut Vec<u8>, index: &mut FxHashMap<u128, u64>, id: u128, edges: &[(u128, f32)]) {
    index.insert(id, file.len() as u64);
    file.extend_from_slice(&Uuid::from_u128(id).into_bytes());
    file.write_u32::<LittleEndian>(edges.len() as u32).unwrap();
    for (to, similarity) in edges {
        file.extend_from_slice(&Uuid::from_u128(*to).into_bytes());
        file.write_f32::<LittleEndian>(*similarity).unwrap();
    }
}

fn bits(edges: &[(u128, f32)]) -> Vec<(u128, u32)> {
    edges.iter().map(|(id, s)| (*id, s.to_bits())).collect()
}

fn info(artist: u128, similarity: f32, path_connections: usize) -> NeighborInfo {
    NeighborInfo { artist, similarity: similarity.to_bits(), path_connections }
}

struct Graph {
    forward: Vec<u8>,
    forward_index: FxHashMap<u128, u64>,
    reverse: Vec<u8>,
    reverse_index: FxHashMap<u128, u64>,
}

// A path 1 -> 2 -> 3 with neighbours 10, 11, 12, 13 beside it.
fn graph() -> Graph {
    let mut g = Graph {
        forward: Vec::new(),
        forward_index: FxHashMap::default(),
        reverse: Vec::new(),
        reverse_index: FxHashMap::default(),
    };
    write_record(&mut g.forward, &mut g.forward_index, 1, &[(2, 0.9), (10, 0.5), (11, 0.4)]);
    write_record(&mut g.forward, &mut g.forward_index, 2, &[(3, 0.8), (10, 0.3), (12, 0.95)]);
    write_record(&mut g.forward, &mut g.forward_index, 3, &[(11, 0.6), (13, 0.2), (1, 0.1)]);
    write_record(&mut g.forward, &mut g.forward_index, 10, &[(1, 0.5)]);
    write_record(&mut g.reverse, &mut g.reverse_index, 1, &[(10, 0.7), (3, 0.1)]);
    write_record(&mut g.reverse, &mut g.reverse_index, 2, &[(1, 0.9)]);
    write_record(&mut g.reverse, &mut g.reverse_index, 3, &[(2, 0.8), (13, 0.25)]);
    g
}

fn path() -> Vec<(u128, u32)> {
    bits(&[(1, 0.0), (2, 0.9), (3, 0.8)])
}

fn config() -> PathfindingConfig {
    PathfindingConfig::new(0.0f32.to_bits(), 80, false)
}

#[test]
fn merging_keeps_the_higher_similarity() {
    let forward = bits(&[(1, 0.9), (2, 0.5), (3, 0.1)]);
    let reverse = bits(&[(2, 0.7), (4, 0.3), (1, 0.2), (4, 0.6), (3, 0.1)]);
    assert_eq!(
        merge_connections(forward.clone(), reverse),
        bits(&[(1, 0.9), (2, 0.7), (3, 0.1), (4, 0.6)])
    );
    assert_eq!(merge_connections(forward.clone(), Vec::new()), forward);
    assert_eq!(merge_connections(Vec::new(), forward.clone()), forward);
    // Of two forward edges to one artist only the first can be raised.
    assert_eq!(
        merge_connections(bits(&[(1, 0.2), (1, 0.3)]), bits(&[(1, 0.9)])),
        bits(&[(1, 0.9), (1, 0.3)])
    );
}

#[test]
fn edges_of_the_path_are_fetched_from_both_graphs() {
    let g = graph();
    let graphs = BiDirectionalGraphs {
        forward: (&g.forward, &g.forward_index),
        reverse: (&g.reverse, &g.reverse_index),
    };
    let connections = collect_path_connections(&path(), &graphs, &config());
    assert_eq!(connections.len(), 3);
    assert_eq!(connections[&1], bits(&[(2, 0.9), (10, 0.7), (11, 0.4), (3, 0.1)]));
    assert_eq!(connections[&2], bits(&[(12, 0.95), (3, 0.8), (10, 0.3), (1, 0.9)]));
    assert_eq!(connections[&3], bits(&[(11, 0.6), (13, 0.25), (1, 0.1), (2, 0.8)]));
}

#[test]
fn neighbours_are_counted_and_rated() {
    let g = graph();
    let graphs = BiDirectionalGraphs {
        forward: (&g.forward, &g.forward_index),
        reverse: (&g.reverse, &g.reverse_index),
    };
    let found = analyze_neighbor_connectivity(&path(), &graphs, &config());
    assert_eq!(
        found,
        vec![info(10, 0.7, 2), info(11, 0.6, 2), info(12, 0.95, 1), info(13, 0.25, 1)]
    );
}

#[test]
fn artist_twice_on_the_path_counts_once() {
    let g = graph();
    let graphs = BiDirectionalGraphs {
        forward: (&g.forward, &g.forward_index),
        reverse: (&g.reverse, &g.reverse_index),
    };
    let twice = bits(&[(1, 0.0), (2, 0.9), (1, 0.9)]);
    let found = analyze_neighbor_connectivity(&twice, &graphs, &config());
    assert_eq!(
        found,
        vec![info(10, 0.7, 2), info(11, 0.4, 1), info(3, 0.8, 2), info(12, 0.95, 1)]
    );
}

#[test]
fn neighbours_go_by_edges_then_by_similarity() {
    let sorted = prioritize_neighbors(vec![
        info(1, 0.9, 1),
        info(2, 0.2, 3),
        info(3, 0.5, 2),
        info(4, 0.9, 2),
        info(5, 0.5, 2),
        info(6, 0.2, 3),
        info(7, 0.95, 1),
    ]);
    assert_eq!(
        sorted,
        vec![
            info(2, 0.2, 3),
            info(6, 0.2, 3),
            info(4, 0.9, 2),
            info(3, 0.5, 2),
            info(5, 0.5, 2),
            info(7, 0.95, 1),
            info(1, 0.9, 1),
        ]
    );
    assert_eq!(prioritize_neighbors(Vec::new()), Vec::new());
}

#[test]
fn neighbourhood_takes_neighbours_in_their_order() {
    let g = graph();
    for (budget, beside) in [
        (0usize, vec![]),
        (2, vec![]),
        (3, vec![]),
        (4, vec![10u128]),
        (5, vec![10, 11]),
        (6, vec![10, 11, 12]),
        (7, vec![10, 11, 12, 13]),
        (50, vec![10, 11, 12, 13]),
    ] {
        let graphs = BiDirectionalGraphs {
            forward: (&g.forward, &g.forward_index),
            reverse: (&g.reverse, &g.reverse_index),
        };
        let (found, connections) = explore_path_neighborhood(&path(), budget, graphs, &config());
        assert_eq!(found.len(), 3 + beside.len(), "with budget {}", budget);
        assert_eq!(found[&1], (0.0f32.to_bits(), 0));
        assert_eq!(found[&2], (0.9f32.to_bits(), 1));
        assert_eq!(found[&3], (0.8f32.to_bits(), 2));
        for id in &beside {
            assert_eq!(found[id].1, 3);
        }
        assert_eq!(connections.len(), found.len());
        for id in found.keys() {
            assert!(connections.contains_key(id));
        }
        if budget >= 3 {
            assert!(found.len() <= budget);
        }
    }
    let graphs = BiDirectionalGraphs {
        forward: (&g.forward, &g.forward_index),
        reverse: (&g.reverse, &g.reverse_index),
    };
    let (found, connections) = explore_path_neighborhood(&path(), 50, graphs, &config());
    assert_eq!(found[&10], (0.7f32.to_bits(), 3));
    assert_eq!(found[&11], (0.6f32.to_bits(), 3));
    assert_eq!(found[&12], (0.95f32.to_bits(), 3));
    assert_eq!(found[&13], (0.25f32.to_bits(), 3));
    assert_eq!(connections[&10], bits(&[(1, 0.5)]));
    assert_eq!(connections[&12], bits(&[]));
}

#[test]
fn neighbourhood_of_an_empty_path_is_empty() {
    let g = graph();
    let graphs = BiDirectionalGraphs {
        forward: (&g.forward, &g.forward_index),
        reverse: (&g.reverse, &g.reverse_index),
    };
    let (found, connections) = explore_path_neighborhood(&[], 10, graphs, &config());
    assert!(found.is_empty());
    assert!(connections.is_empty());
}
