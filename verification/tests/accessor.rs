// Reading one artist's edges with a policy.

use artistpath_core::codec::ReadError;
use artistpath_core::pathfinding::utils::{
    filter_and_sort_connections, get_artist_connections, parse_artist_connections,
};
use artistpath_core::PathfindingConfig;
use byteorder::{LittleEndian, WriteBytesExt};
use rustc_hash::FxHashMap;
use uuid::Uuid;

fn write_record(file: &mut Vec<u8>, id: u128, edges: &[(u128, f32)]) -> u64 {
    let at = file.len() as u64;
    file.extend_from_slice(&Uuid::from_u128(id).into_bytes());
    file.write_u32::<LittleEndian>(edges.len() as u32).unwrap();
    for (to, similarity) in edges {
        file.extend_from_slice(&Uuid::from_u128(*to).into_bytes());
        file.write_f32::<LittleEndian>(*similarity).unwrap();
    }
    at
}

fn config(min_match: f32, top_related: usize) -> PathfindingConfig {
    PathfindingConfig::new(min_match.to_bits(), top_related, false)
}

fn bits(edges: &[(u128, f32)]) -> Vec<(u128, u32)> {
    edges.iter().map(|(id, s)| (*id, s.to_bits())).collect()
}

#[test]
fn connections_come_most_similar_first() {
    let mut file = vec![0u8; 7];
    let mut index = FxHashMap::default();
    index.insert(1u128, write_record(&mut file, 1, &[(2, 0.3), (3, 0.9), (4, 0.6)]));
    let found = get_artist_connections(1, &file, &index, &config(0.0, 80));
    assert_eq!(found, bits(&[(3, 0.9), (4, 0.6), (2, 0.3)]));
}

#[test]
fn connections_of_equal_similarity_keep_file_order() {
    let mut file = Vec::new();
    let mut index = FxHashMap::default();
    index.insert(
        1u128,
        write_record(
            &mut file,
            1,
            &[(5, 0.5), (2, 0.7), (9, 0.5), (3, 0.7), (4, 0.5), (8, 0.9)],
        ),
    );
    let found = get_artist_connections(1, &file, &index, &config(0.0, 80));
    assert_eq!(
        found,
        bits(&[(8, 0.9), (2, 0.7), (3, 0.7), (5, 0.5), (9, 0.5), (4, 0.5)])
    );
}

#[test]
fn threshold_drops_what_lies_under_it() {
    let mut file = Vec::new();
    let mut index = FxHashMap::default();
    index.insert(
        1u128,
        write_record(&mut file, 1, &[(2, 0.3), (3, 0.9), (4, 0.6), (5, 0.59999)]),
    );
    let found = get_artist_connections(1, &file, &index, &config(0.6, 80));
    assert_eq!(found, bits(&[(3, 0.9), (4, 0.6)]));
    let found = get_artist_connections(1, &file, &index, &config(0.95, 80));
    assert_eq!(found, bits(&[]));
}

#[test]
fn threshold_that_is_not_above_zero_is_off() {
    let mut file = Vec::new();
    let mut index = FxHashMap::default();
    index.insert(1u128, write_record(&mut file, 1, &[(2, -0.5), (3, 0.0), (4, 0.1)]));
    let all = bits(&[(4, 0.1), (3, 0.0), (2, -0.5)]);
    assert_eq!(get_artist_connections(1, &file, &index, &config(0.0, 80)), all);
    assert_eq!(get_artist_connections(1, &file, &index, &config(-0.0, 80)), all);
    assert_eq!(get_artist_connections(1, &file, &index, &config(-1.0, 80)), all);
    assert_eq!(
        get_artist_connections(1, &file, &index, &config(f32::NAN, 80)),
        all
    );
    assert_eq!(
        get_artist_connections(1, &file, &index, &config(f32::MIN_POSITIVE, 80)),
        bits(&[(4, 0.1)])
    );
}

#[test]
fn what_is_not_a_number_sorts_last_and_passes_no_threshold() {
    let mut file = Vec::new();
    let mut index = FxHashMap::default();
    index.insert(
        1u128,
        write_record(&mut file, 1, &[(2, f32::NAN), (3, 0.2), (4, f32::NEG_INFINITY), (5, 1.5)]),
    );
    let found = get_artist_connections(1, &file, &index, &config(0.0, 80));
    assert_eq!(found.len(), 4);
    assert_eq!(found[0], (5, 1.5f32.to_bits()));
    assert_eq!(found[1], (3, 0.2f32.to_bits()));
    assert_eq!(found[2], (4, f32::NEG_INFINITY.to_bits()));
    assert_eq!(found[3].0, 2);
    assert!(f32::from_bits(found[3].1).is_nan());
    let found = get_artist_connections(1, &file, &index, &config(0.1, 80));
    assert_eq!(found, bits(&[(5, 1.5), (3, 0.2)]));
}

#[test]
fn top_related_cuts_after_sorting() {
    let mut file = Vec::new();
    let mut index = FxHashMap::default();
    index.insert(1u128, write_record(&mut file, 1, &[(2, 0.3), (3, 0.9), (4, 0.6)]));
    assert_eq!(
        get_artist_connections(1, &file, &index, &config(0.0, 2)),
        bits(&[(3, 0.9), (4, 0.6)])
    );
    assert_eq!(
        get_artist_connections(1, &file, &index, &config(0.0, 1)),
        bits(&[(3, 0.9)])
    );
    assert_eq!(get_artist_connections(1, &file, &index, &config(0.0, 0)), bits(&[]));
    assert_eq!(
        get_artist_connections(1, &file, &index, &config(0.0, 3)),
        bits(&[(3, 0.9), (4, 0.6), (2, 0.3)])
    );
    assert_eq!(
        get_artist_connections(1, &file, &index, &config(0.5, 1)),
        bits(&[(3, 0.9)])
    );
}

#[test]
fn unknown_artist_has_no_connections() {
    let mut file = Vec::new();
    let mut index = FxHashMap::default();
    index.insert(1u128, write_record(&mut file, 1, &[(2, 0.3)]));
    assert_eq!(get_artist_connections(2, &file, &index, &config(0.0, 80)), bits(&[]));
}

#[test]
fn offset_behind_the_data_gives_no_connections() {
    let mut file = Vec::new();
    let mut index = FxHashMap::default();
    write_record(&mut file, 1, &[(2, 0.3)]);
    index.insert(1u128, file.len() as u64);
    assert_eq!(get_artist_connections(1, &file, &index, &config(0.0, 80)), bits(&[]));
    index.insert(1u128, u64::MAX);
    assert_eq!(get_artist_connections(1, &file, &index, &config(0.0, 80)), bits(&[]));
    index.insert(1u128, 0);
    assert_eq!(
        get_artist_connections(1, &file, &index, &config(0.0, 80)),
        bits(&[(2, 0.3)])
    );
}

#[test]
fn record_of_another_artist_gives_no_connections() {
    let mut file = Vec::new();
    let mut index = FxHashMap::default();
    let at = write_record(&mut file, 1, &[(2, 0.3)]);
    index.insert(7u128, at);
    assert_eq!(get_artist_connections(7, &file, &index, &config(0.0, 80)), bits(&[]));
    assert_eq!(
        parse_artist_connections(7, &file, 0),
        Err(ReadError::WrongArtist)
    );
    assert_eq!(
        parse_artist_connections(1, &file, 0),
        Ok(bits(&[(2, 0.3)]))
    );
}

#[test]
fn cut_off_record_gives_no_connections() {
    let mut file = Vec::new();
    let mut index = FxHashMap::default();
    index.insert(1u128, write_record(&mut file, 1, &[(2, 0.3), (3, 0.4)]));
    let whole = file.len();
    for keep in [whole - 1, whole - 20, 21, 20, 19, 16, 15, 1, 0] {
        let cut = &file[..keep];
        assert_eq!(get_artist_connections(1, cut, &index, &config(0.0, 80)), bits(&[]));
        if keep > 0 {
            assert_eq!(
                parse_artist_connections(1, cut, 0),
                Err(ReadError::Truncated)
            );
        }
    }
    // Fewer than sixteen bytes cannot even name the wrong artist.
    assert_eq!(
        parse_artist_connections(9, &file[..15], 0),
        Err(ReadError::Truncated)
    );
    assert_eq!(
        parse_artist_connections(9, &file[..16], 0),
        Err(ReadError::WrongArtist)
    );
    assert_eq!(
        parse_artist_connections(1, &file, whole),
        Err(ReadError::Truncated)
    );
    assert_eq!(
        parse_artist_connections(1, &file, usize::MAX),
        Err(ReadError::Truncated)
    );
}

#[test]
fn record_with_a_huge_count_gives_no_connections() {
    let mut file = Vec::new();
    file.extend_from_slice(&Uuid::from_u128(1).into_bytes());
    file.write_u32::<LittleEndian>(u32::MAX).unwrap();
    file.extend_from_slice(&[0u8; 40]);
    let mut index = FxHashMap::default();
    index.insert(1u128, 0u64);
    assert_eq!(get_artist_connections(1, &file, &index, &config(0.0, 80)), bits(&[]));
}

#[test]
fn record_without_edges_is_read() {
    let mut file = Vec::new();
    let mut index = FxHashMap::default();
    index.insert(1u128, write_record(&mut file, 1, &[]));
    assert_eq!(parse_artist_connections(1, &file, 0), Ok(bits(&[])));
    assert_eq!(get_artist_connections(1, &file, &index, &config(0.0, 80)), bits(&[]));
}

#[test]
fn filter_and_sort_is_filter_then_sort_then_cut() {
    let raw = bits(&[(1, 0.2), (2, 0.8), (3, 0.5), (4, 0.8), (5, 0.1)]);
    assert_eq!(
        filter_and_sort_connections(raw.clone(), &config(0.2, 3)),
        bits(&[(2, 0.8), (4, 0.8), (3, 0.5)])
    );
    assert_eq!(
        filter_and_sort_connections(raw.clone(), &config(0.0, 80)),
        bits(&[(2, 0.8), (4, 0.8), (3, 0.5), (1, 0.2), (5, 0.1)])
    );
    assert_eq!(filter_and_sort_connections(Vec::new(), &config(0.0, 80)), bits(&[]));
}

// Under a higher threshold a query sees a beginning of what it sees under a
// lower one.
#[test]
fn higher_threshold_sees_a_beginning_of_the_lower() {
    let raw = bits(&[
        (1, 0.2),
        (2, 0.8),
        (3, 0.5),
        (4, 0.8),
        (5, 0.1),
        (6, 0.95),
        (7, 0.5),
        (8, 0.0),
    ]);
    let thresholds = [0.0f32, 0.05, 0.1, 0.2, 0.5, 0.8, 0.9, 1.0];
    for top in [0usize, 1, 3, 5, 80] {
        for (i, low) in thresholds.iter().enumerate() {
            for high in &thresholds[i..] {
                let under_low = filter_and_sort_connections(raw.clone(), &config(*low, top));
                let under_high = filter_and_sort_connections(raw.clone(), &config(*high, top));
                assert!(under_high.len() <= under_low.len());
                assert_eq!(under_high[..], under_low[..under_high.len()]);
                for pair in under_low.windows(2) {
                    assert!(f32::from_bits(pair[0].1) >= f32::from_bits(pair[1].1));
                }
            }
        }
    }
}

#[test]
fn same_query_gives_the_same_connections() {
    let mut file = Vec::new();
    let mut index = FxHashMap::default();
    index.insert(
        1u128,
        write_record(&mut file, 1, &[(2, 0.3), (3, 0.3), (4, 0.6), (5, 0.3)]),
    );
    let first = get_artist_connections(1, &file, &index, &config(0.1, 3));
    for _ in 0..5 {
        assert_eq!(get_artist_connections(1, &file, &index, &config(0.1, 3)), first);
    }
    assert_eq!(first, bits(&[(4, 0.6), (2, 0.3), (3, 0.3)]));
}
