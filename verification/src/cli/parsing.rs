//! Metadata files of the short layout: three offsets, and behind them a
//! lookup that lists one artist for each name, the artist table, and one
//! graph index.

use crate::cli::string_normalization::clean_str;
use crate::cli::string_normalization::cleaned;
use crate::codec::id_at;
use crate::codec::string_at;
use crate::codec::u32_at;
use crate::codec::Cursor;
use crate::codec::ReadError;
use crate::parsing::artist_section_at;
use crate::parsing::artists_match;
use crate::parsing::index_section_at;
use crate::parsing::lookup_entries;
use crate::parsing::name_map_get;
use crate::parsing::name_map_insert;
use crate::parsing::name_map_new;
use crate::parsing::not_found;
use crate::parsing::not_found_message;
use crate::parsing::parse_artist_metadata_section;
use crate::parsing::parse_graph_index_section;
use crate::parsing::ArtistMetadata;
use crate::parsing::GraphIndex;
use crate::parsing::NameLookup;
use vstd::prelude::*;

verus! {

/// What reading `n` entries of one artist each from `pos` on gives: for
/// each name the list of its one artist, and the position behind the
/// entries.
pub open spec fn single_entries_at(data: Seq<u8>, pos: int, n: nat) -> Result<
    (Map<Seq<char>, Seq<u128>>, int),
    ReadError,
>
    decreases n,
{
    if n == 0 {
        Ok((Map::empty(), pos))
    } else {
        match single_entries_at(data, pos, (n - 1) as nat) {
            Err(e) => Err(e),
            Ok((m, p)) => match string_at(data, p) {
                Err(e) => Err(e),
                Ok((name, q)) => if q + 16 > data.len() {
                    Err(ReadError::Truncated)
                } else {
                    Ok((m.insert(name, seq![id_at(data, q)]), q + 16))
                },
            },
        }
    }
}

/// The lookup of one artist for each name stored at `offset`.
pub open spec fn single_section_at(data: Seq<u8>, offset: int) -> Result<
    Map<Seq<char>, Seq<u128>>,
    ReadError,
> {
    if offset + 4 > data.len() {
        Err(ReadError::Truncated)
    } else {
        match single_entries_at(data, offset + 4, u32_at(data, offset) as nat) {
            Ok((m, _)) => Ok(m),
            Err(e) => Err(e),
        }
    }
}

/// What a metadata file of the short layout holds.
pub struct ShortMetadataView {
    pub lookup: Map<Seq<char>, Seq<u128>>,
    pub artists: Map<u128, (Seq<char>, Seq<char>)>,
    pub index: Map<u128, u64>,
}

/// What a metadata file of the short layout holds, or the first thing that
/// is wrong with it, its sections taken in the order of the header.
pub open spec fn short_metadata_at(data: Seq<u8>) -> Result<ShortMetadataView, ReadError> {
    if data.len() < 12 {
        Err(ReadError::Truncated)
    } else {
        match single_section_at(data, u32_at(data, 0) as int) {
            Err(e) => Err(e),
            Ok(lookup) => match artist_section_at(data, u32_at(data, 4) as int) {
                Err(e) => Err(e),
                Ok(artists) => match index_section_at(data, u32_at(data, 8) as int) {
                    Err(e) => Err(e),
                    Ok(index) => Ok(ShortMetadataView { lookup, artists, index }),
                },
            },
        }
    }
}

/// An error in the first entries of a section is the error of the section.
proof fn lemma_single_error_stays(data: Seq<u8>, pos: int, i: nat, n: nat)
    requires
        i <= n,
        single_entries_at(data, pos, i) is Err,
    ensures
        single_entries_at(data, pos, n) == single_entries_at(data, pos, i),
    decreases n,
{
    if i < n {
        lemma_single_error_stays(data, pos, i, (n - 1) as nat);
    }
}

/// Reads the lookup that starts at `offset`.
fn parse_single_lookup_section(data: &[u8], offset: usize) -> (r: Result<NameLookup, ReadError>)
    ensures
        match single_section_at(data@, offset as int) {
            Ok(m) => r.is_ok() && lookup_entries(r.unwrap()) == m,
            Err(e) => r.is_err() && r.unwrap_err() == e,
        },
{
    if offset > data.len() {
        return Err(ReadError::Truncated);
    }
    let mut cursor = Cursor::new(data, offset);
    let lookup_count = match cursor.read_u32() {
        Ok(v) => v,
        Err(e) => {
            return Err(e);
        },
    };
    let mut lookup = name_map_new();
    let ghost start = offset + 4;
    let mut i: u32 = 0;
    assert(lookup_entries(lookup) =~= Map::empty());
    while i < lookup_count
        invariant
            i <= lookup_count,
            start == offset + 4,
            start <= data@.len(),
            lookup_count == u32_at(data@, offset as int),
            cursor.bytes() == data@,
            single_entries_at(data@, start, i as nat) == Ok::<
                (Map<Seq<char>, Seq<u128>>, int),
                ReadError,
            >((lookup_entries(lookup), cursor.offset())),
        decreases lookup_count - i,
    {
        let name = match cursor.read_string() {
            Ok(s) => s,
            Err(e) => {
                proof {
                    assert(single_entries_at(data@, start, (i + 1) as nat) is Err);
                    lemma_single_error_stays(data@, start, (i + 1) as nat, lookup_count as nat);
                }
                return Err(e);
            },
        };
        let uuid = match cursor.read_id() {
            Ok(v) => v,
            Err(e) => {
                proof {
                    assert(single_entries_at(data@, start, (i + 1) as nat) is Err);
                    lemma_single_error_stays(data@, start, (i + 1) as nat, lookup_count as nat);
                }
                return Err(e);
            },
        };
        let mut ids: Vec<u128> = Vec::new();
        ids.push(uuid);
        assert(ids@ =~= seq![uuid]);
        name_map_insert(&mut lookup, name, ids);
        i = i + 1;
    }
    Ok(lookup)
}

/// Reads a metadata file of the short layout: the name lookup, the artist
/// table and the graph index.
pub fn parse_unified_metadata(data: &[u8]) -> (r: Result<
    (NameLookup, ArtistMetadata, GraphIndex),
    ReadError,
>)
    ensures
        match short_metadata_at(data@) {
            Ok(view) => {
                &&& r.is_ok()
                &&& lookup_entries(r.unwrap().0) == view.lookup
                &&& artists_match(r.unwrap().1@, view.artists)
                &&& r.unwrap().2@ == view.index
            },
            Err(e) => r.is_err() && r.unwrap_err() == e,
        },
{
    let mut cursor = Cursor::new(data, 0);
    let lookup_offset = match cursor.read_u32() {
        Ok(v) => v as usize,
        Err(e) => {
            return Err(e);
        },
    };
    let metadata_offset = match cursor.read_u32() {
        Ok(v) => v as usize,
        Err(e) => {
            return Err(e);
        },
    };
    let index_offset = match cursor.read_u32() {
        Ok(v) => v as usize,
        Err(e) => {
            return Err(e);
        },
    };
    let lookup = match parse_single_lookup_section(data, lookup_offset) {
        Ok(v) => v,
        Err(e) => {
            return Err(e);
        },
    };
    let metadata = match parse_artist_metadata_section(data, metadata_offset) {
        Ok(v) => v,
        Err(e) => {
            return Err(e);
        },
    };
    let index = match parse_graph_index_section(data, index_offset) {
        Ok(v) => v,
        Err(e) => {
            return Err(e);
        },
    };
    Ok((lookup, metadata, index))
}

/// The artist listed first under the canonical form of a name.
pub open spec fn listed_first(name: Seq<char>, entries: Map<Seq<char>, Seq<u128>>) -> Option<u128> {
    if entries.contains_key(cleaned(name)) && entries[cleaned(name)].len() > 0 {
        Some(entries[cleaned(name)][0])
    } else {
        None
    }
}

/// Finds the artist that a name stands for.
pub fn find_artist_id(name: &str, lookup: &NameLookup) -> (r: Result<u128, String>)
    ensures
        match listed_first(name@, lookup_entries(*lookup)) {
            Some(id) => r == Ok::<u128, String>(id),
            None => r.is_err() && r.unwrap_err()@ == not_found_message(name@),
        },
{
    let clean_name = clean_str(name);
    match name_map_get(lookup, clean_name.as_str()) {
        Some(uuids) => {
            if uuids.len() > 0 {
                Ok(uuids[0])
            } else {
                Err(not_found(name))
            }
        },
        None => Err(not_found(name)),
    }
}

} // verus!
