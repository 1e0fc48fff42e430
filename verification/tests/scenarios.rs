// Small graphs with known answers.

use artistpath_core::enhanced_pathfinding::build_graph_edges;
use artistpath_core::parsing::{find_best_artist_match, Artist};
use artistpath_core::pathfinding::profiled_bfs::{
    profiled_bidirectional_bfs, profiled_unidirectional_bfs,
};
use artistpath_core::pathfinding::unidirectional;
use artistpath_core::{
    bfs_find_path, dijkstra_find_path, explore_bfs, find_paths_with_exploration, Algorithm,
    BiDirectionalGraphs, EnhancedPathResult, PathfindingConfig,
};
use byteorder::{LittleEndian, WriteBytesExt};
use rustc_hash::FxHashMap;
use uuid::Uuid;

struct Graph {
    forward: Vec<u8>,
    forward_index: FxHashMap<u128, u64>,
    reverse: Vec<u8>,
    reverse_index: FxHashMap<u128, u64>,
}

fn write_record(file: &mut Vec<u8>, index: &mut FxHashMap<u128, u64>, id: u128, edges: &[(u128, f32)]) {
    index.insert(id, file.len() as u64);
    file.extend_from_slice(&Uuid::from_u128(id).into_bytes());
    file.write_u32::<LittleEndian>(edges.len() as u32).unwrap();
    for (to, similarity) in edges {
        file.extend_from_slice(&Uuid::from_u128(*to).into_bytes());
        file.write_f32::<LittleEndian>(*similarity).unwrap();
    }
}

// Builds both files from the forward edges; the reverse file is the
// transpose, each artist's incoming edges in the order given.
fn graph(artists: &[u128], edges: &[(u128, u128, f32)]) -> Graph {
    let mut g = Graph {
        forward: Vec::new(),
        forward_index: FxHashMap::default(),
        reverse: Vec::new(),
        reverse_index: FxHashMap::default(),
    };
    for a in artists {
        let out: Vec<(u128, f32)> = edges
            .iter()
            .filter(|(u, _, _)| u == a)
            .map(|(_, v, s)| (*v, *s))
            .collect();
        write_record(&mut g.forward, &mut g.forward_index, *a, &out);
        let into: Vec<(u128, f32)> = edges
            .iter()
            .filter(|(_, v, _)| v == a)
            .map(|(u, _, s)| (*u, *s))
            .collect();
        write_record(&mut g.reverse, &mut g.reverse_index, *a, &into);
    }
    g
}

fn config(min_match: f32, top_related: usize) -> PathfindingConfig {
    PathfindingConfig::new(min_match.to_bits(), top_related, false)
}

fn ids(path: &[(u128, u32)]) -> Vec<u128> {
    path.iter().map(|(id, _)| *id).collect()
}

const ALICE: u128 = 0xA11CE;
const BOB: u128 = 0xB0B;
const A: u128 = 1;
const B: u128 = 2;
const C: u128 = 3;
const D: u128 = 4;
const E: u128 = 5;

fn alice_and_bob() -> Graph {
    graph(&[ALICE, BOB], &[(ALICE, BOB, 0.8), (BOB, ALICE, 0.8)])
}

fn three_hop() -> Graph {
    graph(
        &[A, B, C, D, E],
        &[(A, B, 0.9), (B, C, 0.8), (B, E, 0.6), (A, D, 0.7), (C, B, 0.8)],
    )
}

#[test]
fn direct_path_carries_the_similarity_of_its_edge() {
    let g = alice_and_bob();
    let (path, visited, _) = bfs_find_path(
        ALICE,
        BOB,
        &g.forward,
        &g.forward_index,
        &g.reverse,
        &g.reverse_index,
        &config(0.0, 80),
    );
    assert_eq!(
        path,
        Some(vec![(ALICE, 0.0f32.to_bits()), (BOB, 0.8f32.to_bits())])
    );
    assert!(visited >= 2);
}

#[test]
fn threshold_above_the_only_edge_leaves_no_path() {
    let g = alice_and_bob();
    for algorithm in [Algorithm::Bfs, Algorithm::Dijkstra] {
        let (path, visited, _) = match algorithm {
            Algorithm::Bfs => bfs_find_path(
                ALICE,
                BOB,
                &g.forward,
                &g.forward_index,
                &g.reverse,
                &g.reverse_index,
                &config(0.9, 80),
            ),
            Algorithm::Dijkstra => dijkstra_find_path(
                ALICE,
                BOB,
                &g.forward,
                &g.forward_index,
                &g.reverse,
                &g.reverse_index,
                &config(0.9, 80),
            ),
        };
        assert_eq!(path, None);
        // Each end reaches itself and nothing else.
        assert_eq!(visited, 2);
    }
}

#[test]
fn three_hop_path_goes_through_the_middle() {
    let g = three_hop();
    let (path, _, _) = bfs_find_path(
        A,
        C,
        &g.forward,
        &g.forward_index,
        &g.reverse,
        &g.reverse_index,
        &config(0.0, 80),
    );
    let path = path.unwrap();
    assert_eq!(path.len(), 3);
    assert_eq!(
        path,
        vec![(A, 0.0f32.to_bits()), (B, 0.9f32.to_bits()), (C, 0.8f32.to_bits())]
    );
}

#[test]
fn best_similarity_beats_fewest_steps_only_on_weight() {
    let a = 1u128;
    let b = 2u128;
    let c = 3u128;
    let d = 4u128;
    let g = graph(
        &[a, b, c, d],
        &[(a, b, 0.5), (a, c, 0.9), (b, d, 0.8), (c, d, 0.7)],
    );
    let (path, _, _) = dijkstra_find_path(
        a,
        d,
        &g.forward,
        &g.forward_index,
        &g.reverse,
        &g.reverse_index,
        &config(0.0, 80),
    );
    let path = path.unwrap();
    assert_eq!(ids(&path), vec![a, c, d]);
    assert_eq!(path[0].1, 0.0f32.to_bits());
    assert_eq!(path[1].1, 0.9f32.to_bits());
    assert_eq!(path[2].1, 0.7f32.to_bits());

    let (one_way, _, _) =
        unidirectional::dijkstra_find_path(a, d, &g.forward, &g.forward_index, &config(0.0, 80));
    assert_eq!(ids(&one_way.unwrap()), vec![a, c, d]);
}

#[test]
fn path_longer_than_the_budget_is_returned_alone() {
    let g = three_hop();
    let graphs = BiDirectionalGraphs {
        forward: (&g.forward, &g.forward_index),
        reverse: (&g.reverse, &g.reverse_index),
    };
    let result = find_paths_with_exploration(A, C, Algorithm::Bfs, 2, graphs, &config(0.0, 80));
    match result {
        EnhancedPathResult::PathTooLong {
            primary_path,
            path_length,
            minimum_budget_needed,
            ..
        } => {
            assert_eq!(ids(&primary_path), vec![A, B, C]);
            assert_eq!(path_length, 3);
            assert_eq!(minimum_budget_needed, 3);
        }
        _ => panic!("expected a path that does not fit the budget"),
    }
}

#[test]
fn path_within_the_budget_comes_with_its_neighbourhood() {
    let g = three_hop();
    let graphs = BiDirectionalGraphs {
        forward: (&g.forward, &g.forward_index),
        reverse: (&g.reverse, &g.reverse_index),
    };
    let result = find_paths_with_exploration(A, C, Algorithm::Bfs, 10, graphs, &config(0.0, 80));
    match result {
        EnhancedPathResult::Success {
            primary_path,
            related_artists,
            connections,
            ..
        } => {
            assert_eq!(ids(&primary_path), vec![A, B, C]);
            assert!(related_artists.len() <= 10);
            for artist in [A, B, C] {
                assert!(related_artists.contains_key(&artist));
            }
            assert!(related_artists.contains_key(&D) || related_artists.contains_key(&E));
            // The artists of the path stand on the layer of their place.
            assert_eq!(related_artists[&A], (0.0f32.to_bits(), 0));
            assert_eq!(related_artists[&B], (0.9f32.to_bits(), 1));
            assert_eq!(related_artists[&C], (0.8f32.to_bits(), 2));
            // The artists beside it stand on the layer behind the path.
            assert_eq!(related_artists[&D], (0.7f32.to_bits(), 3));
            assert_eq!(related_artists[&E], (0.6f32.to_bits(), 3));
            assert_eq!(related_artists.len(), 5);
            assert_eq!(connections.len(), 5);

            let edges = build_graph_edges(&connections, &primary_path);
            assert_eq!(edges[0].from, A);
            assert_eq!(edges[0].to, B);
            assert_eq!(edges[0].similarity, 0.9f32.to_bits());
            assert_eq!(edges[1].from, B);
            assert_eq!(edges[1].to, C);
            assert_eq!(edges[1].similarity, 0.8f32.to_bits());
            for edge in &edges {
                assert!(related_artists.contains_key(&edge.from));
                assert!(related_artists.contains_key(&edge.to));
                assert_ne!(edge.from, edge.to);
            }
            // No edge runs against the path.
            assert!(!edges.iter().any(|e| e.from == B && e.to == A));
            assert!(!edges.iter().any(|e| e.from == C && e.to == B));
            // No pair of artists is joined twice in one direction.
            for (i, e) in edges.iter().enumerate() {
                for f in &edges[..i] {
                    assert!(!(e.from == f.from && e.to == f.to));
                }
            }
            assert!(edges.iter().any(|e| e.from == A && e.to == D));
            assert!(edges.iter().any(|e| e.from == D && e.to == A));
            assert!(edges.iter().any(|e| e.from == B && e.to == E));
        }
        _ => panic!("expected a path with its neighbourhood"),
    }
}

#[test]
fn budget_that_just_fits_the_path_takes_no_neighbours() {
    let g = three_hop();
    let graphs = BiDirectionalGraphs {
        forward: (&g.forward, &g.forward_index),
        reverse: (&g.reverse, &g.reverse_index),
    };
    let result = find_paths_with_exploration(A, C, Algorithm::Bfs, 3, graphs, &config(0.0, 80));
    match result {
        EnhancedPathResult::Success {
            related_artists,
            connections,
            ..
        } => {
            assert_eq!(related_artists.len(), 3);
            assert_eq!(connections.len(), 3);
        }
        _ => panic!("expected a path that fits the budget"),
    }
    let graphs = BiDirectionalGraphs {
        forward: (&g.forward, &g.forward_index),
        reverse: (&g.reverse, &g.reverse_index),
    };
    let result = find_paths_with_exploration(A, C, Algorithm::Bfs, 4, graphs, &config(0.0, 80));
    match result {
        EnhancedPathResult::Success { related_artists, .. } => {
            // D hangs on one edge of 0.7, E on one of 0.6: D goes first.
            assert_eq!(related_artists.len(), 4);
            assert!(related_artists.contains_key(&D));
            assert!(!related_artists.contains_key(&E));
        }
        _ => panic!("expected a path that fits the budget"),
    }
}

#[test]
fn unconnected_artists_have_no_path_with_either_algorithm() {
    let g = three_hop();
    for algorithm in [Algorithm::Bfs, Algorithm::Dijkstra] {
        let graphs = BiDirectionalGraphs {
            forward: (&g.forward, &g.forward_index),
            reverse: (&g.reverse, &g.reverse_index),
        };
        // Nothing leads into A.
        let result = find_paths_with_exploration(C, A, algorithm, 10, graphs, &config(0.0, 80));
        match result {
            EnhancedPathResult::NoPath { artists_visited, .. } => {
                // C reaches B, C and E; nothing leads to A, which only reaches itself.
                assert_eq!(artists_visited, 4);
            }
            _ => panic!("expected no path"),
        }
    }
}

#[test]
fn path_from_an_artist_to_itself_is_the_artist() {
    let g = three_hop();
    for start in [A, B, 99u128] {
        let (path, visited, _) = bfs_find_path(
            start,
            start,
            &g.forward,
            &g.forward_index,
            &g.reverse,
            &g.reverse_index,
            &config(0.0, 80),
        );
        assert_eq!(path, Some(vec![(start, 0.0f32.to_bits())]));
        assert_eq!(visited, 1);
        let (path, visited, _) = dijkstra_find_path(
            start,
            start,
            &g.forward,
            &g.forward_index,
            &g.reverse,
            &g.reverse_index,
            &config(0.0, 80),
        );
        assert_eq!(path, Some(vec![(start, 0.0f32.to_bits())]));
        assert_eq!(visited, 1);
    }
}

#[test]
fn same_query_gives_the_same_path() {
    let g = three_hop();
    for algorithm in [Algorithm::Bfs, Algorithm::Dijkstra] {
        let mut seen = Vec::new();
        for _ in 0..4 {
            let (path, visited, _) = match algorithm {
                Algorithm::Bfs => bfs_find_path(
                    A,
                    E,
                    &g.forward,
                    &g.forward_index,
                    &g.reverse,
                    &g.reverse_index,
                    &config(0.0, 80),
                ),
                Algorithm::Dijkstra => dijkstra_find_path(
                    A,
                    E,
                    &g.forward,
                    &g.forward_index,
                    &g.reverse,
                    &g.reverse_index,
                    &config(0.0, 80),
                ),
            };
            seen.push((path, visited));
        }
        assert_eq!(ids(seen[0].0.as_ref().unwrap()), vec![A, B, E]);
        for other in &seen[1..] {
            assert_eq!(other, &seen[0]);
        }
    }
}

// Every step of a found path is an edge of the forward graph with the
// similarity that the step carries.
#[test]
fn every_step_of_a_path_is_an_edge() {
    let artists: Vec<u128> = (1..=12).collect();
    let mut edges = Vec::new();
    for i in 1..=12u128 {
        edges.push((i, i % 12 + 1, 0.3 + (i as f32) / 40.0));
        edges.push((i, (i * 5) % 12 + 1, 0.9 - (i as f32) / 40.0));
    }
    let edges: Vec<(u128, u128, f32)> = edges.into_iter().filter(|(u, v, _)| u != v).collect();
    let g = graph(&artists, &edges);
    for start in 1..=12u128 {
        for target in 1..=12u128 {
            for algorithm in [Algorithm::Bfs, Algorithm::Dijkstra] {
                let (path, _, _) = match algorithm {
                    Algorithm::Bfs => bfs_find_path(
                        start,
                        target,
                        &g.forward,
                        &g.forward_index,
                        &g.reverse,
                        &g.reverse_index,
                        &config(0.0, 80),
                    ),
                    Algorithm::Dijkstra => dijkstra_find_path(
                        start,
                        target,
                        &g.forward,
                        &g.forward_index,
                        &g.reverse,
                        &g.reverse_index,
                        &config(0.0, 80),
                    ),
                };
                let path = path.expect("the graph is one ring");
                assert_eq!(path[0], (start, 0.0f32.to_bits()));
                assert_eq!(path[path.len() - 1].0, target);
                for step in path.windows(2) {
                    assert!(edges.iter().any(|(u, v, s)| *u == step[0].0
                        && *v == step[1].0
                        && s.to_bits() == step[1].1));
                }
            }
        }
    }
}

// The two frontiers meet at an artist two steps from either end although a
// path of three steps exists: the search from both ends does not always
// return a path of the fewest steps.
#[test]
fn search_from_both_ends_may_take_one_step_more() {
    let s = 1u128;
    let x = 2u128;
    let a = 3u128;
    let y = 4u128;
    let b = 5u128;
    let z = 6u128;
    let t = 7u128;
    let edges = [
        (s, x, 0.9),
        (s, a, 0.8),
        (x, y, 0.9),
        (a, b, 0.9),
        (y, z, 0.9),
        (z, t, 0.9),
        (b, t, 0.8),
    ];
    let g = graph(&[s, x, a, y, b, z, t], &edges);
    let (path, _, _) = bfs_find_path(
        s,
        t,
        &g.forward,
        &g.forward_index,
        &g.reverse,
        &g.reverse_index,
        &config(0.0, 80),
    );
    assert_eq!(ids(&path.unwrap()), vec![s, x, y, z, t]);
    let (one_way, _, _) =
        unidirectional::bfs_find_path(s, t, &g.forward, &g.forward_index, &config(0.0, 80));
    assert_eq!(ids(&one_way.unwrap()), vec![s, a, b, t]);
}

// The two sides meet at the first artist that both have visited. Here that
// is an artist on a heavier path: the search from both ends by best
// similarity does not always return the lightest path, the search from the
// start alone does.
#[test]
fn weighted_search_from_both_ends_may_meet_on_a_heavier_path() {
    let s = 1u128;
    let a = 2u128;
    let b = 3u128;
    let c = 4u128;
    let t = 5u128;
    let edges = [
        (s, b, 0.625),
        (s, a, 0.5),
        (b, c, 0.875),
        (c, t, 0.625),
        (a, t, 0.5),
    ];
    let g = graph(&[s, a, b, c, t], &edges);
    let mut weighted = config(0.0, 80);
    weighted.weighted = true;
    let (path, _, _) = dijkstra_find_path(
        s,
        t,
        &g.forward,
        &g.forward_index,
        &g.reverse,
        &g.reverse_index,
        &weighted,
    );
    assert_eq!(ids(&path.unwrap()), vec![s, a, t]);
    let (one_way, _, _) =
        unidirectional::dijkstra_find_path(s, t, &g.forward, &g.forward_index, &weighted);
    assert_eq!(ids(&one_way.unwrap()), vec![s, b, c, t]);
}

#[test]
fn counted_search_finds_what_the_plain_search_finds() {
    let g = three_hop();
    let (plain, _, _) = bfs_find_path(
        A,
        C,
        &g.forward,
        &g.forward_index,
        &g.reverse,
        &g.reverse_index,
        &config(0.0, 80),
    );
    let (counted, metrics) = profiled_bidirectional_bfs(
        A,
        C,
        &g.forward,
        &g.forward_index,
        &g.reverse,
        &g.reverse_index,
        &config(0.0, 80),
    );
    assert_eq!(counted, plain);
    assert!(metrics.meeting_point_found_at.is_some());
    assert!(metrics.nodes_explored_forward >= 1);
    assert!(metrics.nodes_explored_reverse >= 1);
    assert!(metrics.memory_accesses >= 1);
    assert!(metrics.queue_operations >= metrics.nodes_explored_forward);
    assert!(metrics.hash_lookups >= 3);

    let (none, metrics) = profiled_bidirectional_bfs(
        C,
        A,
        &g.forward,
        &g.forward_index,
        &g.reverse,
        &g.reverse_index,
        &config(0.0, 80),
    );
    assert_eq!(none, None);
    assert_eq!(metrics.meeting_point_found_at, None);
    assert_eq!(metrics.nodes_explored_forward, 3);
    assert_eq!(metrics.nodes_explored_reverse, 1);
    assert_eq!(metrics.memory_accesses, 4);

    let (one_way, metrics) =
        profiled_unidirectional_bfs(A, C, &g.forward, &g.forward_index, &config(0.0, 80));
    assert_eq!(
        one_way,
        Some(vec![(A, 0.0f32.to_bits()), (B, 0.9f32.to_bits()), (C, 0.8f32.to_bits())])
    );
    assert!(metrics.nodes_explored_forward >= 3);
    let (one_way, _) =
        profiled_unidirectional_bfs(C, A, &g.forward, &g.forward_index, &config(0.0, 80));
    assert_eq!(one_way, None);
}

#[test]
fn one_way_searches_report_what_they_visited() {
    let g = three_hop();
    let (path, visited, _) =
        unidirectional::bfs_find_path(A, E, &g.forward, &g.forward_index, &config(0.0, 80));
    assert_eq!(ids(&path.unwrap()), vec![A, B, E]);
    assert!(visited >= 3);
    let (path, visited, _) =
        unidirectional::bfs_find_path(D, A, &g.forward, &g.forward_index, &config(0.0, 80));
    assert_eq!(path, None);
    assert_eq!(visited, 1);
    let (path, _, _) =
        unidirectional::dijkstra_find_path(C, E, &g.forward, &g.forward_index, &config(0.0, 80));
    assert_eq!(
        path,
        Some(vec![(C, 0.0f32.to_bits()), (B, 0.8f32.to_bits()), (E, 0.6f32.to_bits())])
    );
}

// The lookup lists two artists under "alice"; the second is written as the
// query is.
#[test]
fn name_shared_by_two_artists_goes_to_the_one_written_alike() {
    let id1 = Uuid::new_v4().as_u128();
    let id2 = Uuid::new_v4().as_u128();
    let mut lookup = FxHashMap::default();
    lookup.insert("alice".to_string(), vec![id1, id2]);
    let mut artists = FxHashMap::default();
    artists.insert(
        id1,
        Artist { id: id1, name: "ALICE!".to_string(), url: String::new() },
    );
    artists.insert(
        id2,
        Artist { id: id2, name: "alice".to_string(), url: String::new() },
    );
    assert_eq!(find_best_artist_match("Alice", &lookup, &artists), Ok(id2));
}

#[test]
fn exploration_of_a_crowded_center_stops_at_five() {
    let center = 500u128;
    let mut artists = vec![center];
    let mut edges = Vec::new();
    for i in 1..=100u128 {
        artists.push(i);
        edges.push((center, i, 0.2 + (i as f32) / 200.0));
        edges.push((i, i % 100 + 1, 0.9));
        edges.push((i, center, 0.5));
    }
    let g = graph(&artists, &edges);
    let result = explore_bfs(center, 5, 2, 0.0f32.to_bits(), &g.forward, &g.forward_index);
    assert_eq!(result.discovered_artists.len(), 5);
    assert_eq!(result.discovered_artists[&center], (1.0f32.to_bits(), 0));
    assert!(result.discovered_artists.values().any(|(_, layer)| *layer == 1));
    // Only the two most similar neighbours of the centre are asked for; the
    // first of them brings in its own nearest, and so does the second.
    assert_eq!(result.discovered_artists[&100], (0.7f32.to_bits(), 1));
    assert_eq!(result.discovered_artists[&99], (0.695f32.to_bits(), 1));
    assert_eq!(result.discovered_artists[&1], (0.9f32.to_bits(), 2));
    assert_eq!(result.discovered_artists[&2], (0.9f32.to_bits(), 3));
    assert_eq!(result.stats.artists_visited, 5);
}
