// Metadata files of the short layout, and names without transliteration.

use artistpath_core::cli::parsing::{find_artist_id, parse_unified_metadata};
use artistpath_core::cli::string_normalization::{
    clean_str, normalize_str, remove_articles, remove_punctuation,
};
use artistpath_core::codec::ReadError;
use byteorder::{LittleEndian, WriteBytesExt};
use rustc_hash::FxHashMap;
use uuid::Uuid;

fn new_id() -> u128 {
    Uuid::new_v4().as_u128()
}

fn write_id(file: &mut Vec<u8>, id: u128) {
    file.extend_from_slice(&Uuid::from_u128(id).into_bytes());
}

#[test]
fn test_find_artist_id_success() {
    let mut lookup = FxHashMap::default();
    let uuid = new_id();
    lookup.insert("test artist".to_string(), vec![uuid]);

    let result = find_artist_id("test artist", &lookup);
    assert_eq!(result, Ok(uuid));
}

#[test]
fn test_find_artist_id_not_found() {
    let lookup = FxHashMap::default();

    let result = find_artist_id("nonexistent", &lookup);
    assert!(result.is_err());
    assert!(result.unwrap_err().contains("not found"));
}

#[test]
fn test_find_artist_id_case_insensitive() {
    let mut lookup = FxHashMap::default();
    let uuid = new_id();
    lookup.insert("test artist".to_string(), vec![uuid]);

    let result = find_artist_id("TEST ARTIST", &lookup);
    assert_eq!(result, Ok(uuid));
}

fn create_test_unified_binary() -> (Vec<u8>, u128, u128) {
    let mut file = Vec::new();
    let alice_id = new_id();
    let bob_id = new_id();

    // Header: three offsets, filled in once the sections are written
    file.write_u32::<LittleEndian>(0).unwrap();
    file.write_u32::<LittleEndian>(0).unwrap();
    file.write_u32::<LittleEndian>(0).unwrap();

    // Section 1: Lookup
    let lookup_offset = file.len();
    file.write_u32::<LittleEndian>(2).unwrap(); // 2 entries

    // Entry 1: "alice" -> alice_id
    let alice_name = b"alice";
    file.write_u16::<LittleEndian>(alice_name.len() as u16).unwrap();
    file.extend_from_slice(alice_name);
    write_id(&mut file, alice_id);

    // Entry 2: "bob" -> bob_id
    let bob_name = b"bob";
    file.write_u16::<LittleEndian>(bob_name.len() as u16).unwrap();
    file.extend_from_slice(bob_name);
    write_id(&mut file, bob_id);

    // Section 2: Metadata
    let metadata_offset = file.len();
    file.write_u32::<LittleEndian>(2).unwrap(); // 2 entries

    // Entry 1: alice_id -> Alice + URL
    write_id(&mut file, alice_id);
    let alice_full_name = b"Alice";
    let alice_url = b"https://example.com/alice";
    file.write_u16::<LittleEndian>(alice_full_name.len() as u16).unwrap();
    file.extend_from_slice(alice_full_name);
    file.write_u16::<LittleEndian>(alice_url.len() as u16).unwrap();
    file.extend_from_slice(alice_url);

    // Entry 2: bob_id -> Bob + URL
    write_id(&mut file, bob_id);
    let bob_full_name = b"Bob";
    let bob_url = b"https://example.com/bob";
    file.write_u16::<LittleEndian>(bob_full_name.len() as u16).unwrap();
    file.extend_from_slice(bob_full_name);
    file.write_u16::<LittleEndian>(bob_url.len() as u16).unwrap();
    file.extend_from_slice(bob_url);

    // Section 3: Index
    let index_offset = file.len();
    file.write_u32::<LittleEndian>(2).unwrap(); // 2 entries

    // Entry 1: alice_id -> position 0
    write_id(&mut file, alice_id);
    file.write_u64::<LittleEndian>(0).unwrap();

    // Entry 2: bob_id -> position 100
    write_id(&mut file, bob_id);
    file.write_u64::<LittleEndian>(100).unwrap();

    // Update header with actual offsets
    let mut header = Vec::new();
    header.write_u32::<LittleEndian>(lookup_offset as u32).unwrap();
    header.write_u32::<LittleEndian>(metadata_offset as u32).unwrap();
    header.write_u32::<LittleEndian>(index_offset as u32).unwrap();
    file[..12].copy_from_slice(&header);

    (file, alice_id, bob_id)
}

#[test]
fn test_parse_unified_metadata() {
    let (file, alice_id, bob_id) = create_test_unified_binary();

    let (lookup, metadata, index) = parse_unified_metadata(&file).unwrap();

    // Test lookup
    assert_eq!(lookup.len(), 2);
    assert_eq!(lookup.get("alice"), Some(&vec![alice_id]));
    assert_eq!(lookup.get("bob"), Some(&vec![bob_id]));

    // Test metadata
    assert_eq!(metadata.len(), 2);
    let alice_artist = metadata.get(&alice_id).unwrap();
    assert_eq!(alice_artist.name, "Alice");
    assert_eq!(alice_artist.url, "https://example.com/alice");

    let bob_artist = metadata.get(&bob_id).unwrap();
    assert_eq!(bob_artist.name, "Bob");
    assert_eq!(bob_artist.url, "https://example.com/bob");

    // Test index
    assert_eq!(index.len(), 2);
    assert_eq!(index.get(&alice_id), Some(&0));
    assert_eq!(index.get(&bob_id), Some(&100));
}

#[test]
fn test_find_artist_id_with_unified() {
    let (file, alice_id, _bob_id) = create_test_unified_binary();
    let (lookup, _metadata, _index) = parse_unified_metadata(&file).unwrap();

    // Test successful lookup
    let result = find_artist_id("alice", &lookup);
    assert_eq!(result, Ok(alice_id));

    // Test case insensitive
    let result = find_artist_id("ALICE", &lookup);
    assert_eq!(result, Ok(alice_id));

    // Test not found
    let result = find_artist_id("nonexistent", &lookup);
    assert!(result.is_err());
    assert!(result.unwrap_err().contains("not found"));
}

#[test]
fn test_parse_unified_empty() {
    let mut file = Vec::new();

    // Header with offsets pointing to empty sections
    file.write_u32::<LittleEndian>(12).unwrap(); // lookup_offset
    file.write_u32::<LittleEndian>(16).unwrap(); // metadata_offset
    file.write_u32::<LittleEndian>(20).unwrap(); // index_offset

    // Empty sections
    file.write_u32::<LittleEndian>(0).unwrap(); // 0 lookup entries
    file.write_u32::<LittleEndian>(0).unwrap(); // 0 metadata entries
    file.write_u32::<LittleEndian>(0).unwrap(); // 0 index entries

    let (lookup, metadata, index) = parse_unified_metadata(&file).unwrap();

    assert!(lookup.is_empty());
    assert!(metadata.is_empty());
    assert!(index.is_empty());
}

#[test]
fn short_layout_reports_what_is_missing() {
    let (file, _, _) = create_test_unified_binary();
    for keep in 0..file.len() {
        assert_eq!(
            parse_unified_metadata(&file[..keep]).unwrap_err(),
            ReadError::Truncated,
            "with {} bytes kept",
            keep
        );
    }
    let mut bad = file.clone();
    bad[18] = 0xff; // inside the name "alice"
    assert_eq!(parse_unified_metadata(&bad).unwrap_err(), ReadError::InvalidUtf8);
}

#[test]
fn names_are_cleaned_without_transliteration() {
    assert_eq!(clean_str("  Hello   World  "), "hello world");
    assert_eq!(clean_str("Björk"), "björk");
    assert_eq!(clean_str("\tA\u{a0}\u{2003}B\n"), "a b");
    assert_eq!(clean_str(""), "");
    assert_eq!(clean_str(" \u{3000} "), "");
    assert_eq!(clean_str("ÀÉ"), "àé");
}

#[test]
fn punctuation_is_taken_out() {
    assert_eq!(remove_punctuation("AC/DC"), "acdc");
    assert_eq!(remove_punctuation("Guns N' Roses!"), "guns n roses");
    assert_eq!(remove_punctuation("a.b,c;d:e_f-g"), "abcdefg");
    assert_eq!(remove_punctuation("[x] {y} (z) <w> @ ` ~ | \\ ^"), "x y z w      ");
    assert_eq!(remove_punctuation("«quoted»"), "«quoted»");
}

#[test]
fn articles_are_taken_out() {
    assert_eq!(remove_articles("The Beatles"), "beatles");
    assert_eq!(remove_articles("A Tribe Called Quest"), "tribe called quest");
    assert_eq!(remove_articles("An  Artist and the   Band"), "artist and band");
    assert_eq!(remove_articles("the"), "");
    assert_eq!(remove_articles("The The"), "");
    assert_eq!(remove_articles("Theatre Anthem Aa"), "theatre anthem aa");
    assert_eq!(remove_articles(""), "");
}

#[test]
fn names_are_normalized() {
    assert_eq!(normalize_str("  The  Rolling Stones! "), "rolling stones");
    assert_eq!(normalize_str("Guns N' Roses"), "guns n roses");
    assert_eq!(normalize_str("A-ha"), "aha");
    assert_eq!(normalize_str(". the ."), " ");
}
