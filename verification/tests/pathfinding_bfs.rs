// Breadth-first path search and the search with a budget.

use artistpath_core::{
    bfs_find_path, find_paths_with_exploration, Algorithm, BiDirectionalGraphs,
    EnhancedPathResult, PathfindingConfig,
};
use byteorder::{LittleEndian, WriteBytesExt};
use rustc_hash::FxHashMap;
use uuid::Uuid;

type MultiArtistTestSetup = (
    Vec<u8>,
    Vec<u8>,
    FxHashMap<u128, u64>,
    FxHashMap<u128, u64>,
    Vec<u128>,
);

fn write_id(file: &mut Vec<u8>, id: u128) {
    file.extend_from_slice(&Uuid::from_u128(id).into_bytes());
}

fn new_id() -> u128 {
    Uuid::new_v4().as_u128()
}

// Helper function to create empty reverse graph for tests
fn create_empty_reverse_file() -> (Vec<u8>, FxHashMap<u128, u64>) {
    let reverse_file = Vec::new();
    let reverse_index = FxHashMap::default();
    (reverse_file, reverse_index)
}

fn create_test_binary_file() -> (
    Vec<u8>,
    Vec<u8>,
    FxHashMap<u128, u64>,
    FxHashMap<u128, u64>,
    u128,
    u128,
) {
    let mut forward_file = Vec::new();
    let mut reverse_file = Vec::new();
    let alice_id = new_id();
    let bob_id = new_id();

    let mut forward_index = FxHashMap::default();
    let mut reverse_index = FxHashMap::default();

    // Write Alice's forward data
    let alice_position = 0;
    forward_index.insert(alice_id, alice_position);

    write_id(&mut forward_file, alice_id);
    forward_file.write_u32::<LittleEndian>(1).unwrap(); // 1 connection
    write_id(&mut forward_file, bob_id);
    forward_file.write_f32::<LittleEndian>(0.8).unwrap();

    // Write Bob's forward data
    let bob_position = forward_file.len() as u64;
    forward_index.insert(bob_id, bob_position);

    write_id(&mut forward_file, bob_id);
    forward_file.write_u32::<LittleEndian>(1).unwrap(); // 1 connection
    write_id(&mut forward_file, alice_id);
    forward_file.write_f32::<LittleEndian>(0.8).unwrap();

    // Write reverse data (same structure but reversed connections)
    let alice_reverse_position = 0;
    reverse_index.insert(alice_id, alice_reverse_position);

    write_id(&mut reverse_file, alice_id);
    reverse_file.write_u32::<LittleEndian>(1).unwrap(); // 1 connection
    write_id(&mut reverse_file, bob_id);
    reverse_file.write_f32::<LittleEndian>(0.8).unwrap();

    let bob_reverse_position = reverse_file.len() as u64;
    reverse_index.insert(bob_id, bob_reverse_position);

    write_id(&mut reverse_file, bob_id);
    reverse_file.write_u32::<LittleEndian>(1).unwrap(); // 1 connection
    write_id(&mut reverse_file, alice_id);
    reverse_file.write_f32::<LittleEndian>(0.8).unwrap();

    (
        forward_file,
        reverse_file,
        forward_index,
        reverse_index,
        alice_id,
        bob_id,
    )
}

#[test]
fn test_bfs_find_direct_path() {
    let (forward_file, reverse_file, forward_index, reverse_index, alice_id, bob_id) =
        create_test_binary_file();

    let config = PathfindingConfig::new(0.0f32.to_bits(), 80, false);

    let (path, visited_count, _) = bfs_find_path(
        alice_id,
        bob_id,
        &forward_file,
        &forward_index,
        &reverse_file,
        &reverse_index,
        &config,
    );

    assert!(path.is_some());
    let path = path.unwrap();
    assert_eq!(path.len(), 2); // Alice -> Bob
    assert_eq!(path[0].0, alice_id);
    assert_eq!(path[1].0, bob_id);
    assert!(visited_count >= 2); // Bidirectional might visit more nodes
}

#[test]
fn test_bfs_no_path() {
    let mut forward_file = Vec::new();
    let (reverse_file, reverse_index) = create_empty_reverse_file();

    let alice_id = new_id();
    let bob_id = new_id();
    let isolated_id = new_id();

    let mut forward_index = FxHashMap::default();

    // Write Alice's data (connects to Bob)
    let alice_position = 0;
    forward_index.insert(alice_id, alice_position);

    write_id(&mut forward_file, alice_id);
    forward_file.write_u32::<LittleEndian>(1).unwrap(); // 1 connection
    write_id(&mut forward_file, bob_id);
    forward_file.write_f32::<LittleEndian>(0.8).unwrap();

    // Write isolated node (no connections)
    let isolated_position = forward_file.len() as u64;
    forward_index.insert(isolated_id, isolated_position);

    write_id(&mut forward_file, isolated_id);
    forward_file.write_u32::<LittleEndian>(0).unwrap(); // 0 connections

    let config = PathfindingConfig::new(0.0f32.to_bits(), 80, false);

    let (path, visited_count, _) = bfs_find_path(
        alice_id,
        isolated_id,
        &forward_file,
        &forward_index,
        &reverse_file,
        &reverse_index,
        &config,
    );

    assert!(path.is_none());
    assert!(visited_count >= 1); // Bidirectional search might visit different numbers of nodes
}

#[test]
fn test_bfs_min_match_filter() {
    let (forward_file, reverse_file, forward_index, reverse_index, alice_id, bob_id) =
        create_test_binary_file();

    let config = PathfindingConfig::new(0.9f32.to_bits(), 80, false); // Higher than our 0.8 connection

    let (path, _, _) = bfs_find_path(
        alice_id,
        bob_id,
        &forward_file,
        &forward_index,
        &reverse_file,
        &reverse_index,
        &config,
    );

    assert!(path.is_none()); // Should be filtered out
}

fn write_record(
    file: &mut Vec<u8>,
    index: &mut FxHashMap<u128, u64>,
    id: u128,
    edges: &[(u128, f32)],
) {
    index.insert(id, file.len() as u64);
    write_id(file, id);
    file.write_u32::<LittleEndian>(edges.len() as u32).unwrap();
    for (to, similarity) in edges {
        write_id(file, *to);
        file.write_f32::<LittleEndian>(*similarity).unwrap();
    }
}

fn create_multi_artist_test_file() -> MultiArtistTestSetup {
    let mut forward_file = Vec::new();
    let mut reverse_file = Vec::new();
    let mut forward_index = FxHashMap::default();
    let mut reverse_index = FxHashMap::default();
    let mut artists = Vec::new();

    // Create 5 artists: A -> B -> C, A -> D, B -> E
    for _ in 0..5 {
        artists.push(new_id());
    }
    let [a_id, b_id, c_id, d_id, e_id] =
        [artists[0], artists[1], artists[2], artists[3], artists[4]];

    // Artist A connects to B and D
    write_record(&mut forward_file, &mut forward_index, a_id, &[(b_id, 0.9), (d_id, 0.7)]);
    // Artist B connects to A, C, and E
    write_record(
        &mut forward_file,
        &mut forward_index,
        b_id,
        &[(a_id, 0.9), (c_id, 0.8), (e_id, 0.6)],
    );
    // Artist C connects to B
    write_record(&mut forward_file, &mut forward_index, c_id, &[(b_id, 0.8)]);
    // Artist D connects to A
    write_record(&mut forward_file, &mut forward_index, d_id, &[(a_id, 0.7)]);
    // Artist E connects to B
    write_record(&mut forward_file, &mut forward_index, e_id, &[(b_id, 0.6)]);

    // Create reverse graph: reverse all the connections
    // A receives from: B, D
    write_record(&mut reverse_file, &mut reverse_index, a_id, &[(b_id, 0.9), (d_id, 0.7)]);
    // B receives from: A, C, E
    write_record(
        &mut reverse_file,
        &mut reverse_index,
        b_id,
        &[(a_id, 0.9), (c_id, 0.8), (e_id, 0.6)],
    );
    // C receives from: B
    write_record(&mut reverse_file, &mut reverse_index, c_id, &[(b_id, 0.8)]);
    // D receives from: A
    write_record(&mut reverse_file, &mut reverse_index, d_id, &[(a_id, 0.7)]);
    // E receives from: B
    write_record(&mut reverse_file, &mut reverse_index, e_id, &[(b_id, 0.6)]);

    (
        forward_file,
        reverse_file,
        forward_index,
        reverse_index,
        artists,
    )
}

#[test]
fn test_enhanced_pathfinding_finds_path_and_explores() {
    let (forward_file, reverse_file, forward_index, reverse_index, artists) =
        create_multi_artist_test_file();
    let [a_id, _b_id, c_id, _d_id, _e_id] =
        [artists[0], artists[1], artists[2], artists[3], artists[4]];

    let config = PathfindingConfig::new(0.0f32.to_bits(), 10, false);

    let graphs = BiDirectionalGraphs {
        forward: (&forward_file, &forward_index),
        reverse: (&reverse_file, &reverse_index),
    };
    let result = find_paths_with_exploration(a_id, c_id, Algorithm::Bfs, 10, graphs, &config);

    // Should find the path A -> B -> C
    match result {
        EnhancedPathResult::Success {
            primary_path,
            related_artists,
            connections,
            artists_visited,
            ..
        } => {
            // Bidirectional search should find the path from A to C
            assert_eq!(primary_path.len(), 3); // A -> B -> C
            assert_eq!(primary_path[0].0, a_id);
            assert_eq!(primary_path[primary_path.len() - 1].0, c_id);

            // Should discover artists within budget
            assert!(related_artists.len() <= 10);
            assert!(related_artists.contains_key(&a_id));
            assert!(related_artists.contains_key(&c_id));

            // Should have connections data
            assert!(!connections.is_empty());
            assert!(artists_visited > 0);
        }
        _ => panic!("Expected Success result"),
    }
}

#[test]
fn test_enhanced_pathfinding_respects_budget() {
    let (forward_file, reverse_file, forward_index, reverse_index, artists) =
        create_multi_artist_test_file();
    let [a_id, _b_id, c_id, _d_id, _e_id] =
        [artists[0], artists[1], artists[2], artists[3], artists[4]];

    let config = PathfindingConfig::new(0.0f32.to_bits(), 10, false);

    let graphs = BiDirectionalGraphs {
        forward: (&forward_file, &forward_index),
        reverse: (&reverse_file, &reverse_index),
    };
    let result = find_paths_with_exploration(a_id, c_id, Algorithm::Bfs, 3, graphs, &config);

    // Should respect budget limit - might be Success or PathTooLong
    match result {
        EnhancedPathResult::Success {
            related_artists, ..
        } => {
            assert!(related_artists.len() <= 3);
        }
        EnhancedPathResult::PathTooLong {
            path_length,
            minimum_budget_needed,
            ..
        } => {
            assert!(minimum_budget_needed > 3);
            assert_eq!(path_length, minimum_budget_needed);
        }
        EnhancedPathResult::NoPath { .. } => {
            // Path might not exist with this graph - that's ok too
        }
    }
}

#[test]
fn test_enhanced_pathfinding_no_path_still_explores() {
    let (forward_file, reverse_file, forward_index, reverse_index, artists) =
        create_multi_artist_test_file();
    let isolated_id = new_id();
    let [a_id, _b_id, _c_id, _d_id, _e_id] =
        [artists[0], artists[1], artists[2], artists[3], artists[4]];

    let config = PathfindingConfig::new(0.0f32.to_bits(), 10, false);

    let graphs = BiDirectionalGraphs {
        forward: (&forward_file, &forward_index),
        reverse: (&reverse_file, &reverse_index),
    };
    let result =
        find_paths_with_exploration(a_id, isolated_id, Algorithm::Bfs, 3, graphs, &config);

    // Should not find path to non-existent artist
    match result {
        EnhancedPathResult::NoPath {
            artists_visited, ..
        } => {
            assert!(artists_visited > 0); // Should have explored some artists
        }
        _ => panic!("Expected NoPath result for isolated target"),
    }
}

#[test]
fn test_enhanced_pathfinding_with_similarity_filter() {
    let (forward_file, reverse_file, forward_index, reverse_index, artists) =
        create_multi_artist_test_file();
    let [a_id, _b_id, c_id, _d_id, _e_id] =
        [artists[0], artists[1], artists[2], artists[3], artists[4]];

    let config = PathfindingConfig::new(0.75f32.to_bits(), 10, false); // Filter out connections < 0.75

    let graphs = BiDirectionalGraphs {
        forward: (&forward_file, &forward_index),
        reverse: (&reverse_file, &reverse_index),
    };
    let result = find_paths_with_exploration(a_id, c_id, Algorithm::Bfs, 5, graphs, &config);

    // Should still find path (A->B has 0.9, B->C has 0.8, both > 0.75)
    match result {
        EnhancedPathResult::Success {
            primary_path,
            connections,
            ..
        } => {
            // Bidirectional search might find different paths
            assert!(primary_path.len() >= 2); // At least A -> C

            // Should filter out low-similarity connections
            for artist_connections in connections.values() {
                for (_, similarity) in artist_connections {
                    assert!(f32::from_bits(*similarity) >= 0.75);
                }
            }
        }
        _ => panic!("Expected Success result with similarity filtering"),
    }
}

#[test]
fn test_enhanced_pathfinding_budget_too_low() {
    let (forward_file, reverse_file, forward_index, reverse_index, artists) =
        create_multi_artist_test_file();
    let [a_id, _b_id, c_id, _d_id, _e_id] =
        [artists[0], artists[1], artists[2], artists[3], artists[4]];

    let config = PathfindingConfig::new(0.0f32.to_bits(), 10, false);

    // Force PathTooLong by using budget = 2 (for at most 2-artist path)
    let graphs = BiDirectionalGraphs {
        forward: (&forward_file, &forward_index),
        reverse: (&reverse_file, &reverse_index),
    };
    let result = find_paths_with_exploration(a_id, c_id, Algorithm::Bfs, 2, graphs, &config);

    match result {
        EnhancedPathResult::PathTooLong {
            primary_path,
            path_length,
            minimum_budget_needed,
            ..
        } => {
            assert_eq!(primary_path[0].0, a_id);
            assert_eq!(primary_path[primary_path.len() - 1].0, c_id);
            assert_eq!(path_length, primary_path.len());
            assert_eq!(minimum_budget_needed, path_length);
            assert!(minimum_budget_needed > 2);
        }
        _ => {
            // Might be Success if budget=1 is enough, or NoPath if no path exists
            // Both are acceptable depending on the graph structure
        }
    }
}
