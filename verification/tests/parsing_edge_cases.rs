// Looking artists up by name.

use artistpath_core::find_artist_id;
use artistpath_core::parsing::find_best_artist_match;
use artistpath_core::parsing::Artist;
use rustc_hash::FxHashMap;
use uuid::Uuid;

fn new_id() -> u128 {
    Uuid::new_v4().as_u128()
}

#[test]
fn test_find_artist_fuzzy_match() {
    let mut lookup = FxHashMap::default();
    let id1 = new_id();
    let id2 = new_id();

    lookup.insert("taylor swift".to_string(), vec![id1]);
    lookup.insert("the beatles".to_string(), vec![id2]);

    // Test various case variations
    assert_eq!(find_artist_id("TAYLOR SWIFT", &lookup), Ok(id1));
    assert_eq!(find_artist_id("Taylor Swift", &lookup), Ok(id1));
    assert_eq!(find_artist_id("taylor swift", &lookup), Ok(id1));
    assert_eq!(find_artist_id("TaYlOr SwIfT", &lookup), Ok(id1));

    // Test with extra spaces
    assert_eq!(find_artist_id("  taylor  swift  ", &lookup), Ok(id1));
    assert_eq!(find_artist_id("\ttaylor\tswift\t", &lookup), Ok(id1));
}

#[test]
fn test_find_artist_unicode_normalization() {
    let mut lookup = FxHashMap::default();
    let id = new_id();

    // Store normalized version
    lookup.insert("bjork".to_string(), vec![id]);

    // Should find with unicode input
    assert_eq!(find_artist_id("Björk", &lookup), Ok(id));
    assert_eq!(find_artist_id("BJÖRK", &lookup), Ok(id));
}

#[test]
fn test_find_artist_not_found_message() {
    let lookup = FxHashMap::default();

    let result = find_artist_id("Nonexistent Artist", &lookup);
    assert!(result.is_err());
    assert!(result
        .unwrap_err()
        .contains("Artist 'Nonexistent Artist' not found"));
}

#[test]
fn test_find_artist_empty_lookup() {
    let lookup = FxHashMap::default();

    let result = find_artist_id("Any Artist", &lookup);
    assert!(result.is_err());
}

#[test]
fn test_find_artist_empty_name() {
    let mut lookup = FxHashMap::default();
    let id = new_id();
    lookup.insert("test".to_string(), vec![id]);

    let result = find_artist_id("", &lookup);
    assert!(result.is_err());

    let result = find_artist_id("   ", &lookup);
    assert!(result.is_err());
}

#[test]
fn find_artist_id_takes_the_first_listed() {
    let mut lookup = FxHashMap::default();
    lookup.insert("alice".to_string(), vec![7u128, 9u128]);
    lookup.insert("nobody".to_string(), vec![]);

    assert_eq!(find_artist_id("Alice", &lookup), Ok(7));
    assert_eq!(
        find_artist_id("nobody", &lookup),
        Err("Artist 'nobody' not found in database".to_string())
    );
    assert_eq!(
        find_artist_id("Bob", &lookup),
        Err("Artist 'Bob' not found in database".to_string())
    );
}

fn artist(id: u128, name: &str) -> Artist {
    Artist {
        id,
        name: name.to_string(),
        url: format!("https://example.com/{}", id),
    }
}

// The lookup lists two artists under one name; the second is written as the
// query is, but for case.
#[test]
fn best_match_prefers_the_name_as_written() {
    let id1 = 1u128;
    let id2 = 2u128;
    let mut lookup = FxHashMap::default();
    lookup.insert("alice".to_string(), vec![id1, id2]);
    let mut artists = FxHashMap::default();
    artists.insert(id1, artist(id1, "Álice"));
    artists.insert(id2, artist(id2, "ALICE"));

    assert_eq!(find_best_artist_match("Alice", &lookup, &artists), Ok(id2));
    assert_eq!(find_best_artist_match("alice", &lookup, &artists), Ok(id2));
    assert_eq!(find_best_artist_match("álice", &lookup, &artists), Ok(id1));
}

#[test]
fn best_match_falls_back_to_the_first_listed() {
    let id1 = 1u128;
    let id2 = 2u128;
    let mut lookup = FxHashMap::default();
    lookup.insert("alice".to_string(), vec![id1, id2]);
    lookup.insert("bob".to_string(), vec![id2]);
    lookup.insert("empty".to_string(), vec![]);
    let mut artists = FxHashMap::default();
    artists.insert(id1, artist(id1, "Alice (band)"));
    artists.insert(id2, artist(id2, "Alice (singer)"));

    assert_eq!(find_best_artist_match("Alice", &lookup, &artists), Ok(id1));
    assert_eq!(find_best_artist_match(" BOB ", &lookup, &artists), Ok(id2));
    assert_eq!(
        find_best_artist_match("empty", &lookup, &artists),
        Err("Artist 'empty' not found in database".to_string())
    );
    assert_eq!(
        find_best_artist_match("Carol", &lookup, &artists),
        Err("Artist 'Carol' not found in database".to_string())
    );
    // An artist that the table does not know cannot match as written.
    let none: FxHashMap<u128, Artist> = FxHashMap::default();
    assert_eq!(find_best_artist_match("Alice", &lookup, &none), Ok(id1));
}
