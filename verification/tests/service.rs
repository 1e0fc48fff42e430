// Questions answered from a loaded state: paths, explorations, and paths
// with their neighbourhood, with the artists named.

use artistpath_core::graph_response::{
    build_center_artist_info, build_empty_graph_response, convert_path_to_artists,
    explore_artist_network_graph, explore_artist_network_reverse_graph, path_is_known,
};
use artistpath_core::enhanced_pathfinding::{
    build_enhanced_path_response, find_enhanced_path_between_artists,
};
use artistpath_core::models::{default_budget, default_max_relations};
use artistpath_core::path_response::{
    build_path_response, execute_pathfinding, find_path_between_artists,
};
use artistpath_core::state::AppState;
use artistpath_core::utils::decimal_string;
use artistpath_core::{Algorithm, Artist, EnhancedPathResult, PathfindingConfig};
use rustc_hash::FxHashMap;
use std::collections::{BTreeMap, HashSet};
use uuid::Uuid;

struct TestArtists {
    taylor: u128,
    olivia: u128,
    billie: u128,
    finneas: u128,
}

fn test_artists() -> TestArtists {
    TestArtists {
        taylor: Uuid::parse_str("20244d07-534f-4eff-b4d4-930878889970").unwrap().as_u128(),
        olivia: Uuid::parse_str("6925db17-f35e-42f3-a4eb-84ee6bf5d4b0").unwrap().as_u128(),
        billie: Uuid::parse_str("f4abc0b5-3f7a-4eff-8f78-ac078dbce533").unwrap().as_u128(),
        finneas: Uuid::parse_str("151cd917-1ee2-4702-859f-90899ad897f8").unwrap().as_u128(),
    }
}

fn artist(id: u128, name: &str, url: &str) -> Artist {
    Artist { id, name: name.to_string(), url: url.to_string() }
}

fn write_record(
    file: &mut Vec<u8>,
    index: &mut FxHashMap<u128, u64>,
    id: u128,
    edges: &[(u128, f32)],
) {
    index.insert(id, file.len() as u64);
    file.extend_from_slice(&id.to_be_bytes());
    file.extend_from_slice(&(edges.len() as u32).to_le_bytes());
    for (to, similarity) in edges {
        file.extend_from_slice(&to.to_be_bytes());
        file.extend_from_slice(&similarity.to_le_bytes());
    }
}

/// Taylor - Olivia (1.0), Olivia - Billie (0.8), Billie - FINNEAS (1.0),
/// each edge in both directions.
fn test_graph() -> (Vec<u8>, FxHashMap<u128, u64>) {
    let a = test_artists();
    let mut file = Vec::new();
    let mut index = FxHashMap::default();
    write_record(&mut file, &mut index, a.taylor, &[(a.olivia, 1.0)]);
    write_record(&mut file, &mut index, a.olivia, &[(a.billie, 0.8), (a.taylor, 1.0)]);
    write_record(&mut file, &mut index, a.billie, &[(a.finneas, 1.0), (a.olivia, 0.8)]);
    write_record(&mut file, &mut index, a.finneas, &[(a.billie, 1.0)]);
    (file, index)
}

fn test_state<'a>(data: &'a [u8], index: &FxHashMap<u128, u64>) -> AppState<'a> {
    let a = test_artists();
    let mut artist_metadata = FxHashMap::default();
    artist_metadata
        .insert(a.taylor, artist(a.taylor, "Taylor Swift", "https://www.last.fm/music/Taylor+Swift"));
    artist_metadata.insert(
        a.olivia,
        artist(a.olivia, "Olivia Rodrigo", "https://www.last.fm/music/Olivia+Rodrigo"),
    );
    artist_metadata.insert(
        a.billie,
        artist(a.billie, "Billie Eilish", "https://www.last.fm/music/Billie+Eilish"),
    );
    artist_metadata
        .insert(a.finneas, artist(a.finneas, "FINNEAS", "https://www.last.fm/music/FINNEAS"));
    let mut name_lookup = FxHashMap::default();
    name_lookup.insert("taylor swift".to_string(), vec![a.taylor]);
    name_lookup.insert("olivia rodrigo".to_string(), vec![a.olivia]);
    name_lookup.insert("billie eilish".to_string(), vec![a.billie]);
    name_lookup.insert("finneas".to_string(), vec![a.finneas]);
    AppState {
        name_lookup,
        artist_metadata,
        graph_index: index.clone(),
        reverse_graph_index: index.clone(),
        graph_data: data,
        reverse_graph_data: data,
    }
}

fn similarity(bits: u32) -> f32 {
    f32::from_bits(bits)
}

#[test]
fn test_explore_basic() {
    let a = test_artists();
    let (data, index) = test_graph();
    let state = test_state(&data, &index);
    let r = explore_artist_network_graph(a.taylor, Algorithm::Bfs, 5, 2, 0.0f32.to_bits(), &state);

    assert_eq!(r.center_artist.name, "Taylor Swift");
    assert!(!r.nodes.is_empty());
    assert!(r.nodes.len() <= 5);
    assert!(!r.edges.is_empty());
    assert!(r.total_found > 0);
    assert_eq!(r.total_found, r.nodes.len());
}

#[test]
fn test_explore_budget_limiting() {
    let a = test_artists();
    let (data, index) = test_graph();
    let state = test_state(&data, &index);
    let r = explore_artist_network_graph(a.taylor, Algorithm::Bfs, 3, 5, 0.0f32.to_bits(), &state);

    assert!(r.nodes.len() <= 3);
    assert_eq!(r.total_found, r.nodes.len());
}

#[test]
fn test_explore_max_relations() {
    let a = test_artists();
    let (data, index) = test_graph();
    let state = test_state(&data, &index);
    for max_relations in [1usize, 3, 5] {
        let r = explore_artist_network_graph(
            a.taylor,
            Algorithm::Bfs,
            10,
            max_relations,
            0.0f32.to_bits(),
            &state,
        );
        assert!(!r.nodes.is_empty(), "no nodes found for max_relations={}", max_relations);
        assert!(!r.edges.is_empty(), "no edges found for max_relations={}", max_relations);
    }
}

#[test]
fn test_explore_graph_integrity() {
    let a = test_artists();
    let (data, index) = test_graph();
    let state = test_state(&data, &index);
    let r = explore_artist_network_graph(a.taylor, Algorithm::Bfs, 10, 3, 0.0f32.to_bits(), &state);

    let node_ids: HashSet<u128> = r.nodes.iter().map(|n| n.id).collect();
    for edge in &r.edges {
        assert!(node_ids.contains(&edge.from), "edge from unknown node: {}", edge.from);
        assert!(node_ids.contains(&edge.to), "edge to unknown node: {}", edge.to);
        let s = similarity(edge.similarity);
        assert!(s >= 0.0 && s <= 1.0, "invalid similarity: {}", s);
    }
    for node in &r.nodes {
        assert!(!node.name.is_empty());
        let s = similarity(node.similarity);
        assert!(s >= 0.0 && s <= 1.0, "invalid node similarity: {}", s);
        assert!(node.layer < 10);
    }
    let centers: Vec<u128> = r.nodes.iter().filter(|n| n.layer == 0).map(|n| n.id).collect();
    assert_eq!(centers, vec![a.taylor]);
}

#[test]
fn test_explore_layer_distribution() {
    let a = test_artists();
    let (data, index) = test_graph();
    let state = test_state(&data, &index);
    let r = explore_artist_network_graph(a.taylor, Algorithm::Bfs, 15, 3, 0.0f32.to_bits(), &state);

    let mut layer_counts: BTreeMap<usize, usize> = BTreeMap::new();
    for node in &r.nodes {
        *layer_counts.entry(node.layer).or_insert(0) += 1;
    }
    assert_eq!(layer_counts.get(&0), Some(&1));
    let max_layer = *layer_counts.keys().max().unwrap();
    assert!(max_layer < 5);
    for layer in 0..max_layer {
        assert!(layer_counts.contains_key(&layer), "missing layer {}", layer);
    }
}

#[test]
fn test_explore_unknown_artist() {
    let (data, index) = test_graph();
    let state = test_state(&data, &index);
    let unknown_id = Uuid::new_v4().as_u128();
    let r =
        explore_artist_network_graph(unknown_id, Algorithm::Bfs, 10, 3, 0.0f32.to_bits(), &state);

    assert_eq!(r.center_artist.name, "Unknown Artist");
    assert_eq!(r.nodes.len(), 0);
    assert_eq!(r.edges.len(), 0);
    assert_eq!(r.total_found, 0);
}

#[test]
fn exploration_shows_the_whole_chain_with_its_layers() {
    let a = test_artists();
    let (data, index) = test_graph();
    let state = test_state(&data, &index);
    let r = explore_artist_network_graph(a.taylor, Algorithm::Bfs, 10, 3, 0.0f32.to_bits(), &state);

    assert_eq!(r.center_artist.id, a.taylor);
    assert_eq!(r.center_artist.url, "https://www.last.fm/music/Taylor+Swift");
    assert_eq!(r.center_artist.similarity, None);
    assert_eq!(r.total_found, 4);
    assert_eq!(r.search_stats.artists_visited, 4);
    let layers: BTreeMap<u128, usize> = r.nodes.iter().map(|n| (n.id, n.layer)).collect();
    assert_eq!(layers[&a.taylor], 0);
    assert_eq!(layers[&a.olivia], 1);
    assert_eq!(layers[&a.billie], 2);
    assert_eq!(layers[&a.finneas], 3);
    let mut edges: Vec<(u128, u128, u32)> =
        r.edges.iter().map(|e| (e.from, e.to, e.similarity)).collect();
    edges.sort();
    let mut expected = vec![
        (a.taylor, a.olivia, 1.0f32.to_bits()),
        (a.olivia, a.billie, 0.8f32.to_bits()),
        (a.olivia, a.taylor, 1.0f32.to_bits()),
        (a.billie, a.finneas, 1.0f32.to_bits()),
        (a.billie, a.olivia, 0.8f32.to_bits()),
        (a.finneas, a.billie, 1.0f32.to_bits()),
    ];
    expected.sort();
    assert_eq!(edges, expected);
}

#[test]
fn exploration_by_distance_answers_like_the_other_on_a_chain() {
    let a = test_artists();
    let (data, index) = test_graph();
    let state = test_state(&data, &index);
    let r = explore_artist_network_graph(
        a.taylor,
        Algorithm::Dijkstra,
        10,
        3,
        0.0f32.to_bits(),
        &state,
    );
    assert_eq!(r.center_artist.name, "Taylor Swift");
    assert_eq!(r.total_found, 4);
    let ids: HashSet<u128> = r.nodes.iter().map(|n| n.id).collect();
    assert_eq!(ids, HashSet::from([a.taylor, a.olivia, a.billie, a.finneas]));
    for e in &r.edges {
        assert_ne!(e.from, e.to);
        assert!(ids.contains(&e.from) && ids.contains(&e.to));
    }
}

#[test]
fn reverse_exploration_turns_the_edges_round() {
    let a = test_artists();
    // Forward: Taylor -> Olivia. Reverse: Olivia -> Taylor.
    let mut forward = Vec::new();
    let mut forward_index = FxHashMap::default();
    write_record(&mut forward, &mut forward_index, a.taylor, &[(a.olivia, 0.5)]);
    write_record(&mut forward, &mut forward_index, a.olivia, &[]);
    let mut reverse = Vec::new();
    let mut reverse_index = FxHashMap::default();
    write_record(&mut reverse, &mut reverse_index, a.olivia, &[(a.taylor, 0.5)]);
    write_record(&mut reverse, &mut reverse_index, a.taylor, &[]);
    let mut state = test_state(&forward, &forward_index);
    state.reverse_graph_data = &reverse;
    state.reverse_graph_index = reverse_index;

    let r = explore_artist_network_reverse_graph(
        a.olivia,
        Algorithm::Bfs,
        10,
        3,
        0.0f32.to_bits(),
        &state,
    );
    assert_eq!(r.center_artist.name, "Olivia Rodrigo");
    assert_eq!(r.total_found, 2);
    let edges: Vec<(u128, u128, u32)> =
        r.edges.iter().map(|e| (e.from, e.to, e.similarity)).collect();
    assert_eq!(edges, vec![(a.taylor, a.olivia, 0.5f32.to_bits())]);

    let unknown = explore_artist_network_reverse_graph(
        7,
        Algorithm::Dijkstra,
        10,
        3,
        0.0f32.to_bits(),
        &state,
    );
    assert_eq!(unknown.center_artist.name, "Unknown Artist");
    assert_eq!(unknown.center_artist.url, "");
    assert_eq!(unknown.total_found, 0);
    assert!(unknown.nodes.is_empty() && unknown.edges.is_empty());
}

#[test]
fn centre_is_named_from_the_table_or_as_unknown() {
    let a = test_artists();
    let (data, index) = test_graph();
    let state = test_state(&data, &index);
    let known = build_center_artist_info(a.billie, &state.artist_metadata);
    assert_eq!(known.id, a.billie);
    assert_eq!(known.name, "Billie Eilish");
    assert_eq!(known.url, "https://www.last.fm/music/Billie+Eilish");
    assert_eq!(known.similarity, None);
    let unknown = build_center_artist_info(5, &state.artist_metadata);
    assert_eq!(unknown.id, 5);
    assert_eq!(unknown.name, "Unknown Artist");
    assert_eq!(unknown.url, "");
    assert_eq!(unknown.similarity, None);

    let empty = build_empty_graph_response(unknown, 12);
    assert_eq!(empty.center_artist.id, 5);
    assert_eq!(empty.total_found, 0);
    assert_eq!(empty.search_stats.artists_visited, 0);
    assert_eq!(empty.search_stats.duration_ms, 12);
    assert!(empty.nodes.is_empty() && empty.edges.is_empty());
}

#[test]
fn test_path_basic() {
    let a = test_artists();
    let (data, index) = test_graph();
    let state = test_state(&data, &index);
    let r = find_path_between_artists(
        a.taylor,
        a.billie,
        Algorithm::default(),
        0.0f32.to_bits(),
        default_max_relations(),
        &state,
    );

    let path = r.path.as_ref().unwrap();
    assert!(path.len() >= 2);
    assert_eq!(path[0].id, a.taylor);
    assert_eq!(path[path.len() - 1].id, a.billie);
    assert_eq!(r.artist_count, path.len());
    assert_eq!(r.step_count, path.len().saturating_sub(1));
    assert_eq!(r.algorithm.as_str(), "bfs");
    assert!(r.search_stats.artists_visited > 0);
}

#[test]
fn test_path_algorithms() {
    let a = test_artists();
    let (data, index) = test_graph();
    let state = test_state(&data, &index);
    let bfs = find_path_between_artists(
        a.taylor,
        a.olivia,
        Algorithm::from("bfs"),
        0.0f32.to_bits(),
        default_max_relations(),
        &state,
    );
    assert_eq!(bfs.algorithm.as_str(), "bfs");
    let dijkstra = find_path_between_artists(
        a.taylor,
        a.olivia,
        Algorithm::from("dijkstra"),
        0.0f32.to_bits(),
        default_max_relations(),
        &state,
    );
    assert_eq!(dijkstra.algorithm.as_str(), "dijkstra");
    assert_eq!(dijkstra.artist_count, 2);
    assert_eq!(bfs.artist_count, 2);
}

#[test]
fn test_path_same_artist() {
    let a = test_artists();
    let (data, index) = test_graph();
    let state = test_state(&data, &index);
    let r = find_path_between_artists(
        a.taylor,
        a.taylor,
        Algorithm::Bfs,
        0.0f32.to_bits(),
        default_max_relations(),
        &state,
    );
    let path = r.path.as_ref().unwrap();
    assert_eq!(path.len(), 1);
    assert_eq!(path[0].id, a.taylor);
    assert_eq!(r.artist_count, 1);
    assert_eq!(r.step_count, 0);
}

#[test]
fn test_path_unknown_artists() {
    let a = test_artists();
    let (data, index) = test_graph();
    let state = test_state(&data, &index);
    let unknown_id = Uuid::new_v4().as_u128();

    let r = find_path_between_artists(
        unknown_id,
        a.taylor,
        Algorithm::Bfs,
        0.0f32.to_bits(),
        default_max_relations(),
        &state,
    );
    assert!(r.path.is_none());
    assert_eq!(r.artist_count, 0);
    assert_eq!(r.step_count, 0);

    let r = find_path_between_artists(
        a.taylor,
        unknown_id,
        Algorithm::Bfs,
        0.0f32.to_bits(),
        default_max_relations(),
        &state,
    );
    assert!(r.path.is_none());
}

#[test]
fn test_path_response_structure() {
    let a = test_artists();
    let (data, index) = test_graph();
    let state = test_state(&data, &index);
    let r = find_path_between_artists(
        a.taylor,
        a.olivia,
        Algorithm::Bfs,
        0.0f32.to_bits(),
        default_max_relations(),
        &state,
    );
    if let Some(path) = &r.path {
        for artist in path {
            assert!(!artist.name.is_empty());
            assert!(!artist.url.is_empty());
        }
        assert_eq!(r.artist_count, path.len());
        assert_eq!(r.step_count, path.len().saturating_sub(1));
    } else {
        assert_eq!(r.artist_count, 0);
        assert_eq!(r.step_count, 0);
    }
    let path = r.path.unwrap();
    assert_eq!(path.len(), 2);
    assert_eq!(path[0].name, "Taylor Swift");
    assert_eq!(path[0].similarity, None);
    assert_eq!(path[1].name, "Olivia Rodrigo");
    assert_eq!(path[1].url, "https://www.last.fm/music/Olivia+Rodrigo");
    assert_eq!(path[1].similarity, Some(1.0f32.to_bits()));
}

#[test]
fn test_path_min_similarity() {
    let a = test_artists();
    let (data, index) = test_graph();
    let state = test_state(&data, &index);
    // The only way to Billie has an edge of 0.8.
    let strict = find_path_between_artists(
        a.taylor,
        a.billie,
        Algorithm::Bfs,
        0.9f32.to_bits(),
        default_max_relations(),
        &state,
    );
    assert!(strict.path.is_none());
    assert_eq!(strict.artist_count, 0);

    let loose = find_path_between_artists(
        a.taylor,
        a.olivia,
        Algorithm::Bfs,
        0.1f32.to_bits(),
        default_max_relations(),
        &state,
    );
    assert!(loose.path.is_some());
}

#[test]
fn test_path_max_relations() {
    let a = test_artists();
    let (data, index) = test_graph();
    let state = test_state(&data, &index);
    // With one edge per artist Olivia leads back to Taylor only.
    let narrow =
        find_path_between_artists(a.taylor, a.billie, Algorithm::Bfs, 0.0f32.to_bits(), 1, &state);
    assert!(narrow.path.is_none());

    let wide =
        find_path_between_artists(a.taylor, a.olivia, Algorithm::Bfs, 0.0f32.to_bits(), 5, &state);
    assert!(wide.path.is_some());
}

#[test]
fn search_along_the_forward_graph_finds_the_chain() {
    let a = test_artists();
    let (data, index) = test_graph();
    let state = test_state(&data, &index);
    for algorithm in [Algorithm::Bfs, Algorithm::Dijkstra] {
        let config = PathfindingConfig::new(0.0f32.to_bits(), 5, algorithm == Algorithm::Dijkstra);
        let (path, visited, _) = execute_pathfinding(a.taylor, a.finneas, algorithm, &config, &state);
        assert_eq!(
            path,
            Some(vec![
                (a.taylor, 0.0f32.to_bits()),
                (a.olivia, 1.0f32.to_bits()),
                (a.billie, 0.8f32.to_bits()),
                (a.finneas, 1.0f32.to_bits()),
            ])
        );
        assert!(visited >= 1);
    }
}

#[test]
fn path_answer_counts_artists_and_steps() {
    let a = test_artists();
    let (data, index) = test_graph();
    let state = test_state(&data, &index);
    let path = vec![
        (a.taylor, 0.0f32.to_bits()),
        (a.olivia, 1.0f32.to_bits()),
        (a.billie, 0.8f32.to_bits()),
    ];
    let r = build_path_response(Some(path.clone()), 7, 21, Algorithm::Dijkstra, &state.artist_metadata);
    assert_eq!(r.artist_count, 3);
    assert_eq!(r.step_count, 2);
    assert_eq!(r.algorithm, Algorithm::Dijkstra);
    assert_eq!(r.search_stats.artists_visited, 7);
    assert_eq!(r.search_stats.duration_ms, 21);
    let shown = r.path.unwrap();
    assert_eq!(shown[2].name, "Billie Eilish");
    assert_eq!(shown[2].similarity, Some(0.8f32.to_bits()));

    let none = build_path_response(None, 3, 4, Algorithm::Bfs, &state.artist_metadata);
    assert!(none.path.is_none());
    assert_eq!(none.artist_count, 0);
    assert_eq!(none.step_count, 0);

    let named = convert_path_to_artists(&path, &state.artist_metadata);
    assert_eq!(named.len(), 3);
    assert_eq!(named[0].similarity, None);
    assert_eq!(named[1].similarity, Some(1.0f32.to_bits()));
    assert_eq!(convert_path_to_artists(&[], &state.artist_metadata).len(), 0);
}

#[test]
fn test_enhanced_path_success() {
    let a = test_artists();
    let (data, index) = test_graph();
    let state = test_state(&data, &index);
    let r = find_enhanced_path_between_artists(
        a.taylor,
        a.billie,
        Algorithm::default(),
        0.0f32.to_bits(),
        default_max_relations(),
        10,
        &state,
    );

    assert_eq!(r.status, "success");
    assert!(r.error.is_none());
    let data = r.data.unwrap();
    assert!(!data.primary_path.is_empty());
    assert_eq!(data.primary_path[0].id, a.taylor);
    assert_eq!(data.primary_path.last().unwrap().id, a.billie);
    assert!(!data.nodes.is_empty());
    assert!(data.total_artists <= 10);
}

#[test]
fn test_enhanced_path_respects_budget() {
    let a = test_artists();
    let (data, index) = test_graph();
    let state = test_state(&data, &index);
    let r = find_enhanced_path_between_artists(
        a.taylor,
        a.olivia,
        Algorithm::default(),
        0.0f32.to_bits(),
        default_max_relations(),
        3,
        &state,
    );

    assert_eq!(r.status, "success");
    let data = r.data.unwrap();
    assert!(data.total_artists <= 3);
    assert_eq!(data.total_artists, 3);
}

#[test]
fn test_enhanced_path_with_similarity_filter() {
    let a = test_artists();
    let (data, index) = test_graph();
    let state = test_state(&data, &index);
    let r = find_enhanced_path_between_artists(
        a.taylor,
        a.finneas,
        Algorithm::default(),
        0.7f32.to_bits(),
        default_max_relations(),
        10,
        &state,
    );

    assert_eq!(r.status, "success");
    let data = r.data.unwrap();
    assert!(!data.edges.is_empty());
    for edge in &data.edges {
        assert!(similarity(edge.similarity) >= 0.7);
    }
}

#[test]
fn test_enhanced_path_no_path() {
    let a = test_artists();
    let (data, index) = test_graph();
    let state = test_state(&data, &index);
    let isolated_id = Uuid::new_v4().as_u128();
    let r = find_enhanced_path_between_artists(
        a.taylor,
        isolated_id,
        Algorithm::default(),
        0.0f32.to_bits(),
        default_max_relations(),
        10,
        &state,
    );

    assert_eq!(r.status, "no_path");
    assert!(r.data.is_none());
    let error = r.error.unwrap();
    assert_eq!(error.error_type, "no_path");
    assert_eq!(error.message, "No path found between the specified artists");
    assert!(error.primary_path.is_none());
    assert!(error.path_length.is_none());
    assert!(error.minimum_budget_needed.is_none());
}

#[test]
fn test_enhanced_path_budget_too_low() {
    let a = test_artists();
    let (data, index) = test_graph();
    let state = test_state(&data, &index);
    let r = find_enhanced_path_between_artists(
        a.taylor,
        a.billie,
        Algorithm::default(),
        0.0f32.to_bits(),
        default_max_relations(),
        2,
        &state,
    );

    assert_eq!(r.status, "path_too_long");
    assert!(r.data.is_none());
    let error = r.error.unwrap();
    assert_eq!(error.error_type, "path_too_long");
    assert!(error.primary_path.is_some());
    assert!(error.minimum_budget_needed.is_some());
    assert!(error.minimum_budget_needed.unwrap() > 2);
    assert_eq!(error.minimum_budget_needed, Some(3));
    assert_eq!(error.path_length, Some(3));
    assert_eq!(
        error.message,
        "Path requires 3 artists but budget is insufficient. Increase budget to 3 to enable full exploration."
    );
    let path = error.primary_path.unwrap();
    let names: Vec<&str> = path.iter().map(|p| p.name.as_str()).collect();
    assert_eq!(names, vec!["Taylor Swift", "Olivia Rodrigo", "Billie Eilish"]);
}

#[test]
fn test_enhanced_path_with_max_relations() {
    let a = test_artists();
    let (data, index) = test_graph();
    let state = test_state(&data, &index);
    let r = find_enhanced_path_between_artists(
        a.taylor,
        a.billie,
        Algorithm::default(),
        0.0f32.to_bits(),
        2,
        10,
        &state,
    );
    assert!(r.search_stats.artists_visited > 0);
}

#[test]
fn test_enhanced_path_default_parameters() {
    let a = test_artists();
    let (data, index) = test_graph();
    let state = test_state(&data, &index);
    let r = find_enhanced_path_between_artists(
        a.taylor,
        a.olivia,
        Algorithm::default(),
        0.0f32.to_bits(),
        default_max_relations(),
        default_budget(),
        &state,
    );
    assert_eq!(r.status, "success");
}

#[test]
fn test_enhanced_path_graph_structure() {
    let a = test_artists();
    let (data, index) = test_graph();
    let state = test_state(&data, &index);
    for algorithm in [Algorithm::Bfs, Algorithm::Dijkstra] {
        let r = find_enhanced_path_between_artists(
            a.taylor,
            a.billie,
            algorithm,
            0.0f32.to_bits(),
            default_max_relations(),
            10,
            &state,
        );
        assert_eq!(r.status, "success");
        let data = r.data.unwrap();
        let node_ids: HashSet<u128> = data.nodes.iter().map(|n| n.id).collect();
        for edge in &data.edges {
            assert!(node_ids.contains(&edge.from));
            assert!(node_ids.contains(&edge.to));
            assert!(edge.from != edge.to);
        }
        for artist in &data.primary_path {
            assert!(node_ids.contains(&artist.id));
        }
        // The steps of the path come first among the edges.
        assert_eq!((data.edges[0].from, data.edges[0].to), (a.taylor, a.olivia));
        assert_eq!((data.edges[1].from, data.edges[1].to), (a.olivia, a.billie));
    }
}

#[test]
fn answer_is_built_for_each_kind_of_result() {
    let a = test_artists();
    let (data, index) = test_graph();
    let state = test_state(&data, &index);

    let none = build_enhanced_path_response(
        EnhancedPathResult::NoPath { artists_visited: 9, duration_ms: 4 },
        &state.artist_metadata,
    );
    assert_eq!(none.status, "no_path");
    assert_eq!(none.search_stats.artists_visited, 9);
    assert_eq!(none.search_stats.duration_ms, 4);

    let long = build_enhanced_path_response(
        EnhancedPathResult::PathTooLong {
            primary_path: vec![(a.taylor, 0.0f32.to_bits()), (a.olivia, 1.0f32.to_bits())],
            path_length: 1250,
            minimum_budget_needed: 1250,
            artists_visited: 2,
            duration_ms: 1,
        },
        &state.artist_metadata,
    );
    assert_eq!(long.status, "path_too_long");
    assert_eq!(
        long.error.unwrap().message,
        "Path requires 1250 artists but budget is insufficient. Increase budget to 1250 to enable full exploration."
    );

    let mut related = FxHashMap::default();
    related.insert(a.taylor, (0.0f32.to_bits(), 0usize));
    related.insert(a.olivia, (1.0f32.to_bits(), 0usize));
    related.insert(a.billie, (0.8f32.to_bits(), 1usize));
    let mut connections = FxHashMap::default();
    connections.insert(a.taylor, vec![(a.olivia, 1.0f32.to_bits())]);
    connections.insert(a.olivia, vec![(a.billie, 0.8f32.to_bits()), (a.taylor, 1.0f32.to_bits())]);
    // Only edges to artists whose own edges are held are shown.
    connections.insert(a.billie, vec![(a.finneas, 1.0f32.to_bits())]);
    let success = build_enhanced_path_response(
        EnhancedPathResult::Success {
            primary_path: vec![(a.taylor, 0.0f32.to_bits()), (a.olivia, 1.0f32.to_bits())],
            related_artists: related,
            connections,
            artists_visited: 2,
            duration_ms: 1,
        },
        &state.artist_metadata,
    );
    assert_eq!(success.status, "success");
    let data = success.data.unwrap();
    assert_eq!(data.total_artists, 3);
    assert_eq!(data.nodes.len(), 3);
    assert_eq!(data.primary_path.len(), 2);
    let edges: Vec<(u128, u128)> = data.edges.iter().map(|e| (e.from, e.to)).collect();
    assert_eq!(edges, vec![(a.taylor, a.olivia), (a.olivia, a.billie)]);
}

#[test]
fn numbers_are_written_in_decimal() {
    assert_eq!(decimal_string(0), "0");
    assert_eq!(decimal_string(7), "7");
    assert_eq!(decimal_string(10), "10");
    assert_eq!(decimal_string(1250), "1250");
    assert_eq!(decimal_string(1_000_000), "1000000");
}

#[test]
fn state_is_read_from_a_metadata_file() {
    // A header of four offsets, all pointing at one empty section.
    let mut metadata = Vec::new();
    for _ in 0..4 {
        metadata.extend_from_slice(&16u32.to_le_bytes());
    }
    metadata.extend_from_slice(&0u32.to_le_bytes());
    let graph = [1u8, 2, 3];
    let reverse = [4u8];
    let state = AppState::new(&metadata, &graph, &reverse).unwrap();
    assert!(state.name_lookup.is_empty());
    assert!(state.artist_metadata.is_empty());
    assert!(state.graph_index.is_empty());
    assert!(state.reverse_graph_index.is_empty());
    assert_eq!(state.graph_data, &graph);
    assert_eq!(state.reverse_graph_data, &reverse);

    assert!(AppState::new(&[0u8; 3], &graph, &reverse).is_err());
}

#[test]
fn path_is_known_where_the_table_names_all_its_artists() {
    let a = test_artists();
    let (data, index) = test_graph();
    let state = test_state(&data, &index);
    let known = vec![(a.taylor, 0.0f32.to_bits()), (a.olivia, 1.0f32.to_bits())];
    assert!(path_is_known(&known, &state.artist_metadata));
    let unknown = vec![(a.taylor, 0.0f32.to_bits()), (9, 1.0f32.to_bits())];
    assert!(!path_is_known(&unknown, &state.artist_metadata));
    assert!(path_is_known(&[], &state.artist_metadata));
}
