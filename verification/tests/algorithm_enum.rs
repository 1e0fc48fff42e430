use artistpath_core::Algorithm;

#[test]
fn test_algorithm_enum_default() {
    assert_eq!(Algorithm::default(), Algorithm::Bfs);
}

#[test]
fn test_algorithm_from_str() {
    assert_eq!(Algorithm::from("bfs"), Algorithm::Bfs);
    assert_eq!(Algorithm::from("BFS"), Algorithm::Bfs);
    assert_eq!(Algorithm::from("dijkstra"), Algorithm::Dijkstra);
    assert_eq!(Algorithm::from("DIJKSTRA"), Algorithm::Dijkstra);
    assert_eq!(Algorithm::from("unknown"), Algorithm::Bfs); // Default to BFS
}

#[test]
fn test_algorithm_from_string() {
    assert_eq!(Algorithm::from("bfs".to_string()), Algorithm::Bfs);
    assert_eq!(Algorithm::from("dijkstra".to_string()), Algorithm::Dijkstra);
}

#[test]
fn test_algorithm_as_str() {
    assert_eq!(Algorithm::Bfs.as_str(), "bfs");
    assert_eq!(Algorithm::Dijkstra.as_str(), "dijkstra");
}

#[test]
fn algorithm_name_round_trip() {
    assert_eq!(Algorithm::from(Algorithm::Bfs.as_str()), Algorithm::Bfs);
    assert_eq!(Algorithm::from(Algorithm::Dijkstra.as_str()), Algorithm::Dijkstra);
    assert_eq!(Algorithm::from("Dijkstra"), Algorithm::Dijkstra);
    assert_eq!(Algorithm::from(""), Algorithm::Bfs);
    assert_eq!(Algorithm::from(" dijkstra"), Algorithm::Bfs);
}
