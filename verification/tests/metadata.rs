// Reading the metadata file.

use artistpath_core::codec::ReadError;
use artistpath_core::parse_unified_metadata;
use byteorder::{LittleEndian, WriteBytesExt};
use uuid::Uuid;

fn write_string(file: &mut Vec<u8>, s: &str) {
    file.write_u16::<LittleEndian>(s.len() as u16).unwrap();
    file.extend_from_slice(s.as_bytes());
}

fn write_id(file: &mut Vec<u8>, id: u128) {
    file.extend_from_slice(&Uuid::from_u128(id).into_bytes());
}

fn lookup_section(entries: &[(&str, Vec<u128>)]) -> Vec<u8> {
    let mut s = Vec::new();
    s.write_u32::<LittleEndian>(entries.len() as u32).unwrap();
    for (name, ids) in entries {
        write_string(&mut s, name);
        s.write_u16::<LittleEndian>(ids.len() as u16).unwrap();
        for id in ids {
            write_id(&mut s, *id);
        }
    }
    s
}

fn artist_section(entries: &[(u128, &str, &str)]) -> Vec<u8> {
    let mut s = Vec::new();
    s.write_u32::<LittleEndian>(entries.len() as u32).unwrap();
    for (id, name, url) in entries {
        write_id(&mut s, *id);
        write_string(&mut s, name);
        write_string(&mut s, url);
    }
    s
}

fn index_section(entries: &[(u128, u64)]) -> Vec<u8> {
    let mut s = Vec::new();
    s.write_u32::<LittleEndian>(entries.len() as u32).unwrap();
    for (id, at) in entries {
        write_id(&mut s, *id);
        s.write_u64::<LittleEndian>(*at).unwrap();
    }
    s
}

fn file_of(lookup: &[u8], artists: &[u8], forward: &[u8], reverse: &[u8]) -> Vec<u8> {
    let mut file = Vec::new();
    let l = 16;
    let a = l + lookup.len();
    let f = a + artists.len();
    let r = f + forward.len();
    for offset in [l, a, f, r] {
        file.write_u32::<LittleEndian>(offset as u32).unwrap();
    }
    file.extend_from_slice(lookup);
    file.extend_from_slice(artists);
    file.extend_from_slice(forward);
    file.extend_from_slice(reverse);
    file
}

fn sample() -> Vec<u8> {
    file_of(
        &lookup_section(&[("alice", vec![11, 12]), ("bjork", vec![13]), ("nobody", vec![])]),
        &artist_section(&[
            (11, "Alice", "https://example.com/alice"),
            (12, "ALICE", "https://example.com/alice2"),
            (13, "Björk", ""),
        ]),
        &index_section(&[(11, 0), (12, 40), (13, u64::MAX)]),
        &index_section(&[(13, 7)]),
    )
}

#[test]
fn metadata_file_is_read_back_as_written() {
    let file = sample();
    let (lookup, artists, forward, reverse) = parse_unified_metadata(&file).unwrap();

    assert_eq!(lookup.len(), 3);
    assert_eq!(lookup["alice"], vec![11, 12]);
    assert_eq!(lookup["bjork"], vec![13]);
    assert_eq!(lookup["nobody"], Vec::<u128>::new());

    assert_eq!(artists.len(), 3);
    assert_eq!(artists[&11].id, 11);
    assert_eq!(artists[&11].name, "Alice");
    assert_eq!(artists[&11].url, "https://example.com/alice");
    assert_eq!(artists[&12].name, "ALICE");
    assert_eq!(artists[&13].name, "Björk");
    assert_eq!(artists[&13].url, "");

    assert_eq!(forward.len(), 3);
    assert_eq!(forward[&11], 0);
    assert_eq!(forward[&12], 40);
    assert_eq!(forward[&13], u64::MAX);
    assert_eq!(reverse.len(), 1);
    assert_eq!(reverse[&13], 7);
}

#[test]
fn metadata_file_with_empty_sections_is_read() {
    let file = file_of(
        &lookup_section(&[]),
        &artist_section(&[]),
        &index_section(&[]),
        &index_section(&[]),
    );
    assert_eq!(file.len(), 32);
    let (lookup, artists, forward, reverse) = parse_unified_metadata(&file).unwrap();
    assert!(lookup.is_empty());
    assert!(artists.is_empty());
    assert!(forward.is_empty());
    assert!(reverse.is_empty());
}

#[test]
fn sections_are_found_through_their_offsets() {
    // The sections stand in another order than the header names them, with
    // bytes of no meaning between them, and both indexes are one section.
    let lookup = lookup_section(&[("a", vec![1])]);
    let artists = artist_section(&[(1, "A", "u")]);
    let index = index_section(&[(1, 99)]);
    let mut file = vec![0u8; 16];
    file.extend_from_slice(&[0xee; 3]);
    let index_at = file.len();
    file.extend_from_slice(&index);
    let artists_at = file.len();
    file.extend_from_slice(&artists);
    file.extend_from_slice(&[0xee; 5]);
    let lookup_at = file.len();
    file.extend_from_slice(&lookup);
    let mut header = Vec::new();
    for offset in [lookup_at, artists_at, index_at, index_at] {
        header.write_u32::<LittleEndian>(offset as u32).unwrap();
    }
    file[..16].copy_from_slice(&header);

    let (lookup, artists, forward, reverse) = parse_unified_metadata(&file).unwrap();
    assert_eq!(lookup["a"], vec![1]);
    assert_eq!(artists[&1].name, "A");
    assert_eq!(forward[&1], 99);
    assert_eq!(reverse[&1], 99);
}

#[test]
fn later_entry_of_a_key_counts() {
    let file = file_of(
        &lookup_section(&[("a", vec![1]), ("b", vec![2]), ("a", vec![3, 4])]),
        &artist_section(&[(1, "First", "x"), (1, "Second", "y")]),
        &index_section(&[(1, 10), (1, 20)]),
        &index_section(&[]),
    );
    let (lookup, artists, forward, _) = parse_unified_metadata(&file).unwrap();
    assert_eq!(lookup.len(), 2);
    assert_eq!(lookup["a"], vec![3, 4]);
    assert_eq!(artists.len(), 1);
    assert_eq!(artists[&1].name, "Second");
    assert_eq!(forward[&1], 20);
}

#[test]
fn short_header_is_reported() {
    let file = sample();
    for keep in [0, 1, 4, 15] {
        assert_eq!(
            parse_unified_metadata(&file[..keep]).unwrap_err(),
            ReadError::Truncated
        );
    }
}

#[test]
fn cut_off_file_is_reported() {
    let file = sample();
    for keep in 16..file.len() {
        assert_eq!(
            parse_unified_metadata(&file[..keep]).unwrap_err(),
            ReadError::Truncated,
            "with {} bytes kept",
            keep
        );
    }
    assert!(parse_unified_metadata(&file).is_ok());
}

#[test]
fn offset_behind_the_file_is_reported() {
    let mut file = sample();
    let end = file.len() as u32;
    for field in 0..4 {
        let mut bad = file.clone();
        let mut offset = Vec::new();
        offset.write_u32::<LittleEndian>(end + 1).unwrap();
        bad[4 * field..4 * field + 4].copy_from_slice(&offset);
        assert_eq!(parse_unified_metadata(&bad).unwrap_err(), ReadError::Truncated);
        let mut offset = Vec::new();
        offset.write_u32::<LittleEndian>(u32::MAX).unwrap();
        bad[4 * field..4 * field + 4].copy_from_slice(&offset);
        assert_eq!(parse_unified_metadata(&bad).unwrap_err(), ReadError::Truncated);
    }
    // An offset to the very end finds no count there.
    let mut offset = Vec::new();
    offset.write_u32::<LittleEndian>(end).unwrap();
    file[12..16].copy_from_slice(&offset);
    assert_eq!(parse_unified_metadata(&file).unwrap_err(), ReadError::Truncated);
}

#[test]
fn name_that_is_not_utf8_is_reported() {
    let mut lookup = Vec::new();
    lookup.write_u32::<LittleEndian>(1).unwrap();
    lookup.write_u16::<LittleEndian>(2).unwrap();
    lookup.extend_from_slice(&[0xc3, 0x28]);
    lookup.write_u16::<LittleEndian>(0).unwrap();
    let file = file_of(
        &lookup,
        &artist_section(&[]),
        &index_section(&[]),
        &index_section(&[]),
    );
    assert_eq!(parse_unified_metadata(&file).unwrap_err(), ReadError::InvalidUtf8);

    let mut artists = Vec::new();
    artists.write_u32::<LittleEndian>(1).unwrap();
    write_id(&mut artists, 5);
    write_string(&mut artists, "fine");
    artists.write_u16::<LittleEndian>(1).unwrap();
    artists.push(0x80);
    let file = file_of(
        &lookup_section(&[]),
        &artists,
        &index_section(&[]),
        &index_section(&[]),
    );
    assert_eq!(parse_unified_metadata(&file).unwrap_err(), ReadError::InvalidUtf8);
}

#[test]
fn first_section_that_is_wrong_decides_the_error() {
    // The lookup holds a name that is no UTF-8 and the forward index is cut
    // off: the lookup is read first.
    let mut lookup = Vec::new();
    lookup.write_u32::<LittleEndian>(1).unwrap();
    lookup.write_u16::<LittleEndian>(1).unwrap();
    lookup.push(0xff);
    lookup.write_u16::<LittleEndian>(0).unwrap();
    let mut index = Vec::new();
    index.write_u32::<LittleEndian>(3).unwrap();
    let file = file_of(&lookup, &artist_section(&[]), &index, &[]);
    assert_eq!(parse_unified_metadata(&file).unwrap_err(), ReadError::InvalidUtf8);
}

#[test]
fn count_larger_than_the_section_is_reported() {
    let mut index = Vec::new();
    index.write_u32::<LittleEndian>(2).unwrap();
    write_id(&mut index, 1);
    index.write_u64::<LittleEndian>(5).unwrap();
    let file = file_of(
        &lookup_section(&[]),
        &artist_section(&[]),
        &index_section(&[]),
        &index,
    );
    assert_eq!(parse_unified_metadata(&file).unwrap_err(), ReadError::Truncated);
}
