//! The metadata file, and the lookup of artists by name.
//!
//! The file starts with four `u32` offsets: to the name lookup, to the
//! artist table, to the index of the forward graph and to the index of the
//! reverse graph. Each section starts with a `u32` count of its entries.
//!
//! - A lookup entry is a canonical name, a `u16` count and that many artist
//!   identifiers.
//! - An artist entry is an identifier, a name and a URL.
//! - An index entry is an identifier and the `u64` offset of the artist's
//!   record in the graph file.
//!
//! Where a key stands in a section twice, the later entry counts.

use crate::codec::id_at;
use crate::codec::id_bytes;
use crate::codec::lemma_id_at;
use crate::codec::lemma_placed_split;
use crate::codec::lemma_string_at;
use crate::codec::lemma_u16_at;
use crate::codec::lemma_u32_at;
use crate::codec::lemma_u64_at;
use crate::codec::placed;
use crate::codec::string_bytes;
use crate::codec::u16_bytes;
use crate::codec::u32_bytes;
use crate::codec::u64_bytes;
use crate::codec::string_at;
use crate::codec::u16_at;
use crate::codec::u32_at;
use crate::codec::u64_at;
use crate::codec::Cursor;
use crate::codec::ReadError;
use crate::fx::id_map_get;
use crate::fx::id_map_insert;
use crate::fx::id_map_new;
use crate::string_normalization::clean_str;
use crate::string_normalization::cleaned;
use crate::string_normalization::lowercase;
use crate::string_normalization::lowercased;
use rustc_hash::FxHashMap;
use vstd::prelude::*;
use vstd::string::StringExecFns;
use vstd::utf8::encode_utf8;

verus! {

/// An artist: its identifier, its display name and its URL.
#[derive(Debug, Clone)]
pub struct Artist {
    pub id: u128,
    pub name: String,
    pub url: String,
}

/// For each canonical name, the artists of that name; the first is the one
/// that the name stands for by default.
pub type NameLookup = FxHashMap<String, Vec<u128>>;

/// The artists by identifier.
pub type ArtistMetadata = FxHashMap<u128, Artist>;

/// For each artist, the offset of its record in a graph file.
pub type GraphIndex = FxHashMap<u128, u64>;

/// What a name lookup holds: for each name the identifiers listed under it.
pub uninterp spec fn lookup_entries(m: NameLookup) -> Map<Seq<char>, Seq<u128>>;

/// `FxHashMap::default`: a new lookup holds no name.
#[verifier::external_body]
pub(crate) fn name_map_new() -> (r: NameLookup)
    ensures
        lookup_entries(r).dom() == Set::<Seq<char>>::empty(),
{
    FxHashMap::default()
}

/// `HashMap::insert`: afterwards the lookup holds the identifiers under the
/// name and is otherwise unchanged.
#[verifier::external_body]
pub(crate) fn name_map_insert(m: &mut NameLookup, name: String, ids: Vec<u128>)
    ensures
        lookup_entries(*final(m)) == lookup_entries(*old(m)).insert(name@, ids@),
{
    m.insert(name, ids);
}

/// `HashMap::get`: the identifiers held under the name, if there are any.
#[verifier::external_body]
pub(crate) fn name_map_get<'a>(m: &'a NameLookup, name: &str) -> (r: Option<&'a Vec<u128>>)
    ensures
        r.is_some() == lookup_entries(*m).contains_key(name@),
        r.is_some() ==> r.unwrap()@ == lookup_entries(*m)[name@],
{
    m.get(name)
}

/// What a metadata file holds.
pub struct MetadataView {
    pub lookup: Map<Seq<char>, Seq<u128>>,
    pub artists: Map<u128, (Seq<char>, Seq<char>)>,
    pub forward: Map<u128, u64>,
    pub reverse: Map<u128, u64>,
}

/// The `n` identifiers stored from `pos` on.
pub open spec fn ids_at(data: Seq<u8>, pos: int, n: int) -> Seq<u128> {
    Seq::new(n as nat, |i: int| id_at(data, pos + 16 * i))
}

/// What reading `n` lookup entries from `pos` on gives: the entries and the
/// position behind them.
pub open spec fn lookup_entries_at(data: Seq<u8>, pos: int, n: nat) -> Result<
    (Map<Seq<char>, Seq<u128>>, int),
    ReadError,
>
    decreases n,
{
    if n == 0 {
        Ok((Map::empty(), pos))
    } else {
        match lookup_entries_at(data, pos, (n - 1) as nat) {
            Err(e) => Err(e),
            Ok((m, p)) => match string_at(data, p) {
                Err(e) => Err(e),
                Ok((name, q)) => if q + 2 > data.len() {
                    Err(ReadError::Truncated)
                } else if q + 2 + 16 * u16_at(data, q) > data.len() {
                    Err(ReadError::Truncated)
                } else {
                    Ok(
                        (
                            m.insert(name, ids_at(data, q + 2, u16_at(data, q) as int)),
                            q + 2 + 16 * u16_at(data, q),
                        ),
                    )
                },
            },
        }
    }
}

/// What reading `n` artist entries from `pos` on gives.
pub open spec fn artist_entries_at(data: Seq<u8>, pos: int, n: nat) -> Result<
    (Map<u128, (Seq<char>, Seq<char>)>, int),
    ReadError,
>
    decreases n,
{
    if n == 0 {
        Ok((Map::empty(), pos))
    } else {
        match artist_entries_at(data, pos, (n - 1) as nat) {
            Err(e) => Err(e),
            Ok((m, p)) => if p + 16 > data.len() {
                Err(ReadError::Truncated)
            } else {
                match string_at(data, p + 16) {
                    Err(e) => Err(e),
                    Ok((name, q)) => match string_at(data, q) {
                        Err(e) => Err(e),
                        Ok((url, end)) => Ok((m.insert(id_at(data, p), (name, url)), end)),
                    },
                }
            },
        }
    }
}

/// What reading `n` index entries from `pos` on gives.
pub open spec fn index_entries_at(data: Seq<u8>, pos: int, n: nat) -> Result<
    (Map<u128, u64>, int),
    ReadError,
>
    decreases n,
{
    if n == 0 {
        Ok((Map::empty(), pos))
    } else {
        match index_entries_at(data, pos, (n - 1) as nat) {
            Err(e) => Err(e),
            Ok((m, p)) => if p + 24 > data.len() {
                Err(ReadError::Truncated)
            } else {
                Ok((m.insert(id_at(data, p), u64_at(data, p + 16)), p + 24))
            },
        }
    }
}

/// The name lookup stored at `offset`.
pub open spec fn lookup_section_at(data: Seq<u8>, offset: int) -> Result<
    Map<Seq<char>, Seq<u128>>,
    ReadError,
> {
    if offset + 4 > data.len() {
        Err(ReadError::Truncated)
    } else {
        match lookup_entries_at(data, offset + 4, u32_at(data, offset) as nat) {
            Ok((m, _)) => Ok(m),
            Err(e) => Err(e),
        }
    }
}

/// The artist table stored at `offset`.
pub open spec fn artist_section_at(data: Seq<u8>, offset: int) -> Result<
    Map<u128, (Seq<char>, Seq<char>)>,
    ReadError,
> {
    if offset + 4 > data.len() {
        Err(ReadError::Truncated)
    } else {
        match artist_entries_at(data, offset + 4, u32_at(data, offset) as nat) {
            Ok((m, _)) => Ok(m),
            Err(e) => Err(e),
        }
    }
}

/// The graph index stored at `offset`.
pub open spec fn index_section_at(data: Seq<u8>, offset: int) -> Result<Map<u128, u64>, ReadError> {
    if offset + 4 > data.len() {
        Err(ReadError::Truncated)
    } else {
        match index_entries_at(data, offset + 4, u32_at(data, offset) as nat) {
            Ok((m, _)) => Ok(m),
            Err(e) => Err(e),
        }
    }
}

/// What a metadata file holds, or the first thing that is wrong with it, its
/// sections taken in the order of the header.
pub open spec fn metadata_at(data: Seq<u8>) -> Result<MetadataView, ReadError> {
    if data.len() < 16 {
        Err(ReadError::Truncated)
    } else {
        match lookup_section_at(data, u32_at(data, 0) as int) {
            Err(e) => Err(e),
            Ok(lookup) => match artist_section_at(data, u32_at(data, 4) as int) {
                Err(e) => Err(e),
                Ok(artists) => match index_section_at(data, u32_at(data, 8) as int) {
                    Err(e) => Err(e),
                    Ok(forward) => match index_section_at(data, u32_at(data, 12) as int) {
                        Err(e) => Err(e),
                        Ok(reverse) => Ok(MetadataView { lookup, artists, forward, reverse }),
                    },
                },
            },
        }
    }
}

/// Whether a table of artists holds what `v` says: each artist under its
/// own identifier, with the name and the URL given.
pub open spec fn artists_match(m: Map<u128, Artist>, v: Map<u128, (Seq<char>, Seq<char>)>) -> bool {
    &&& m.dom() == v.dom()
    &&& forall|id: u128| #[trigger]
        m.contains_key(id) ==> m[id].id == id && m[id].name@ == v[id].0 && m[id].url@ == v[id].1
}

/// An error in the first entries of a section is the error of the section.
proof fn lemma_lookup_error_stays(data: Seq<u8>, pos: int, i: nat, n: nat)
    requires
        i <= n,
        lookup_entries_at(data, pos, i) is Err,
    ensures
        lookup_entries_at(data, pos, n) == lookup_entries_at(data, pos, i),
    decreases n,
{
    if i < n {
        lemma_lookup_error_stays(data, pos, i, (n - 1) as nat);
    }
}

/// An error in the first entries of a section is the error of the section.
proof fn lemma_artist_error_stays(data: Seq<u8>, pos: int, i: nat, n: nat)
    requires
        i <= n,
        artist_entries_at(data, pos, i) is Err,
    ensures
        artist_entries_at(data, pos, n) == artist_entries_at(data, pos, i),
    decreases n,
{
    if i < n {
        lemma_artist_error_stays(data, pos, i, (n - 1) as nat);
    }
}

/// An error in the first entries of a section is the error of the section.
proof fn lemma_index_error_stays(data: Seq<u8>, pos: int, i: nat, n: nat)
    requires
        i <= n,
        index_entries_at(data, pos, i) is Err,
    ensures
        index_entries_at(data, pos, n) == index_entries_at(data, pos, i),
    decreases n,
{
    if i < n {
        lemma_index_error_stays(data, pos, i, (n - 1) as nat);
    }
}


/// The identifiers of a list, one behind the other.
pub open spec fn encode_ids(ids: Seq<u128>) -> Seq<u8>
    decreases ids.len(),
{
    if ids.len() == 0 {
        Seq::empty()
    } else {
        encode_ids(ids.drop_last()) + id_bytes(ids.last())
    }
}

/// A lookup entry as it is stored.
pub open spec fn encode_lookup_entry(e: (Seq<char>, Seq<u128>)) -> Seq<u8> {
    string_bytes(e.0) + u16_bytes(e.1.len() as u16) + encode_ids(e.1)
}

/// Lookup entries as they are stored, one behind the other.
pub open spec fn encode_lookup_entries(es: Seq<(Seq<char>, Seq<u128>)>) -> Seq<u8>
    decreases es.len(),
{
    if es.len() == 0 {
        Seq::empty()
    } else {
        encode_lookup_entries(es.drop_last()) + encode_lookup_entry(es.last())
    }
}

/// The lookup that a list of entries makes; of two entries of one name the
/// later counts.
pub open spec fn lookup_map(es: Seq<(Seq<char>, Seq<u128>)>) -> Map<Seq<char>, Seq<u128>>
    decreases es.len(),
{
    if es.len() == 0 {
        Map::empty()
    } else {
        lookup_map(es.drop_last()).insert(es.last().0, es.last().1)
    }
}

/// Whether the names and the lists of a lookup are short enough for their
/// counts to be stored.
pub open spec fn lookup_fits(es: Seq<(Seq<char>, Seq<u128>)>) -> bool {
    forall|i: int|
        0 <= i < es.len() ==> encode_utf8((#[trigger] es[i]).0).len() <= 0xffff && es[i].1.len()
            <= 0xffff
}

/// An artist entry as it is stored.
pub open spec fn encode_artist_entry(e: (u128, Seq<char>, Seq<char>)) -> Seq<u8> {
    id_bytes(e.0) + string_bytes(e.1) + string_bytes(e.2)
}

/// Artist entries as they are stored, one behind the other.
pub open spec fn encode_artist_entries(es: Seq<(u128, Seq<char>, Seq<char>)>) -> Seq<u8>
    decreases es.len(),
{
    if es.len() == 0 {
        Seq::empty()
    } else {
        encode_artist_entries(es.drop_last()) + encode_artist_entry(es.last())
    }
}

/// The table that a list of artist entries makes.
pub open spec fn artist_map(es: Seq<(u128, Seq<char>, Seq<char>)>) -> Map<
    u128,
    (Seq<char>, Seq<char>),
>
    decreases es.len(),
{
    if es.len() == 0 {
        Map::empty()
    } else {
        artist_map(es.drop_last()).insert(es.last().0, (es.last().1, es.last().2))
    }
}

/// Whether the names and the URLs of a table are short enough for their
/// lengths to be stored.
pub open spec fn artists_fit(es: Seq<(u128, Seq<char>, Seq<char>)>) -> bool {
    forall|i: int|
        0 <= i < es.len() ==> encode_utf8((#[trigger] es[i]).1).len() <= 0xffff && encode_utf8(
            es[i].2,
        ).len() <= 0xffff
}

/// Index entries as they are stored, one behind the other.
pub open spec fn encode_index_entries(es: Seq<(u128, u64)>) -> Seq<u8>
    decreases es.len(),
{
    if es.len() == 0 {
        Seq::empty()
    } else {
        encode_index_entries(es.drop_last()) + (id_bytes(es.last().0) + u64_bytes(es.last().1))
    }
}

/// The index that a list of entries makes.
pub open spec fn index_map(es: Seq<(u128, u64)>) -> Map<u128, u64>
    decreases es.len(),
{
    if es.len() == 0 {
        Map::empty()
    } else {
        index_map(es.drop_last()).insert(es.last().0, es.last().1)
    }
}

/// A metadata file: the four offsets, then the four sections, each with its
/// count in front.
pub open spec fn encode_metadata(
    lookup: Seq<(Seq<char>, Seq<u128>)>,
    artists: Seq<(u128, Seq<char>, Seq<char>)>,
    forward: Seq<(u128, u64)>,
    reverse: Seq<(u128, u64)>,
) -> Seq<u8> {
    header(
        lookup_section(lookup).len(),
        artist_section(artists).len(),
        index_section(forward).len(),
    ) + lookup_section(lookup) + artist_section(artists) + index_section(forward) + index_section(
        reverse,
    )
}

/// Whether the tables are small enough for a metadata file: every count
/// fits its field, and every section starts within reach of its offset.
pub open spec fn metadata_fits(
    lookup: Seq<(Seq<char>, Seq<u128>)>,
    artists: Seq<(u128, Seq<char>, Seq<char>)>,
    forward: Seq<(u128, u64)>,
    reverse: Seq<(u128, u64)>,
) -> bool {
    &&& lookup_fits(lookup)
    &&& artists_fit(artists)
    &&& lookup.len() <= u32::MAX
    &&& artists.len() <= u32::MAX
    &&& forward.len() <= u32::MAX
    &&& reverse.len() <= u32::MAX
    &&& 24 + encode_lookup_entries(lookup).len() + encode_artist_entries(artists).len() + 4
        + encode_index_entries(forward).len() <= u32::MAX
}

/// Identifiers that were stored are the ones read.
proof fn lemma_ids_at(data: Seq<u8>, pos: int, ids: Seq<u128>)
    requires
        placed(data, pos, encode_ids(ids)),
    ensures
        encode_ids(ids).len() == 16 * ids.len(),
        ids_at(data, pos, ids.len() as int) == ids,
    decreases ids.len(),
{
    if ids.len() == 0 {
        assert(ids_at(data, pos, 0) =~= ids);
    } else {
        let t = ids.drop_last();
        lemma_placed_split(data, pos, encode_ids(t), id_bytes(ids.last()));
        lemma_ids_at(data, pos, t);
        lemma_id_at(data, pos + encode_ids(t).len(), ids.last());
        assert forall|i: int| 0 <= i < ids.len() implies id_at(data, pos + 16 * i) == ids[i] by {
            if i < t.len() {
                assert(ids_at(data, pos, t.len() as int)[i] == t[i]);
            }
        }
        assert(ids_at(data, pos, ids.len() as int) =~= ids);
    }
}

/// Lookup entries that were stored are the ones read.
proof fn lemma_lookup_entries_round(data: Seq<u8>, pos: int, es: Seq<(Seq<char>, Seq<u128>)>)
    requires
        placed(data, pos, encode_lookup_entries(es)),
        lookup_fits(es),
    ensures
        lookup_entries_at(data, pos, es.len()) == Ok::<
            (Map<Seq<char>, Seq<u128>>, int),
            ReadError,
        >((lookup_map(es), pos + encode_lookup_entries(es).len())),
    decreases es.len(),
{
    if es.len() > 0 {
        let t = es.drop_last();
        let e = es.last();
        assert(es[es.len() - 1] == e);
        assert forall|i: int| 0 <= i < t.len() implies encode_utf8((#[trigger] t[i]).0).len()
            <= 0xffff && t[i].1.len() <= 0xffff by {
            assert(t[i] == es[i]);
        }
        lemma_placed_split(data, pos, encode_lookup_entries(t), encode_lookup_entry(e));
        lemma_lookup_entries_round(data, pos, t);
        let p = pos + encode_lookup_entries(t).len();
        let head = string_bytes(e.0) + u16_bytes(e.1.len() as u16);
        lemma_placed_split(data, p, head, encode_ids(e.1));
        lemma_placed_split(data, p, string_bytes(e.0), u16_bytes(e.1.len() as u16));
        lemma_string_at(data, p, e.0);
        let q = p + string_bytes(e.0).len();
        lemma_u16_at(data, q, e.1.len() as u16);
        lemma_ids_at(data, q + 2, e.1);
        assert(t.len() == (es.len() - 1) as nat);
    }
}

/// Artist entries that were stored are the ones read.
proof fn lemma_artist_entries_round(data: Seq<u8>, pos: int, es: Seq<(u128, Seq<char>, Seq<char>)>)
    requires
        placed(data, pos, encode_artist_entries(es)),
        artists_fit(es),
    ensures
        artist_entries_at(data, pos, es.len()) == Ok::<
            (Map<u128, (Seq<char>, Seq<char>)>, int),
            ReadError,
        >((artist_map(es), pos + encode_artist_entries(es).len())),
    decreases es.len(),
{
    if es.len() > 0 {
        let t = es.drop_last();
        let e = es.last();
        assert(es[es.len() - 1] == e);
        assert forall|i: int| 0 <= i < t.len() implies encode_utf8((#[trigger] t[i]).1).len()
            <= 0xffff && encode_utf8(t[i].2).len() <= 0xffff by {
            assert(t[i] == es[i]);
        }
        lemma_placed_split(data, pos, encode_artist_entries(t), encode_artist_entry(e));
        lemma_artist_entries_round(data, pos, t);
        let p = pos + encode_artist_entries(t).len();
        let head = id_bytes(e.0) + string_bytes(e.1);
        lemma_placed_split(data, p, head, string_bytes(e.2));
        lemma_placed_split(data, p, id_bytes(e.0), string_bytes(e.1));
        lemma_id_at(data, p, e.0);
        lemma_string_at(data, p + 16, e.1);
        lemma_string_at(data, p + 16 + string_bytes(e.1).len(), e.2);
        assert(t.len() == (es.len() - 1) as nat);
    }
}

/// Index entries that were stored are the ones read.
proof fn lemma_index_entries_round(data: Seq<u8>, pos: int, es: Seq<(u128, u64)>)
    requires
        placed(data, pos, encode_index_entries(es)),
    ensures
        encode_index_entries(es).len() == 24 * es.len(),
        index_entries_at(data, pos, es.len()) == Ok::<(Map<u128, u64>, int), ReadError>(
            (index_map(es), pos + encode_index_entries(es).len()),
        ),
    decreases es.len(),
{
    if es.len() > 0 {
        let t = es.drop_last();
        let e = es.last();
        let entry = id_bytes(e.0) + u64_bytes(e.1);
        lemma_placed_split(data, pos, encode_index_entries(t), entry);
        lemma_index_entries_round(data, pos, t);
        let p = pos + encode_index_entries(t).len();
        lemma_placed_split(data, p, id_bytes(e.0), u64_bytes(e.1));
        lemma_id_at(data, p, e.0);
        lemma_u64_at(data, p + 16, e.1);
        assert(t.len() == (es.len() - 1) as nat);
    }
}

/// A name lookup that was stored with its count is the one read.
proof fn lemma_lookup_section_round(data: Seq<u8>, offset: int, es: Seq<(Seq<char>, Seq<u128>)>)
    requires
        placed(data, offset, u32_bytes(es.len() as u32) + encode_lookup_entries(es)),
        es.len() <= u32::MAX,
        lookup_fits(es),
    ensures
        lookup_section_at(data, offset) == Ok::<Map<Seq<char>, Seq<u128>>, ReadError>(
            lookup_map(es),
        ),
{
    lemma_placed_split(data, offset, u32_bytes(es.len() as u32), encode_lookup_entries(es));
    lemma_u32_at(data, offset, es.len() as u32);
    lemma_lookup_entries_round(data, offset + 4, es);
}

/// An artist table that was stored with its count is the one read.
proof fn lemma_artist_section_round(
    data: Seq<u8>,
    offset: int,
    es: Seq<(u128, Seq<char>, Seq<char>)>,
)
    requires
        placed(data, offset, u32_bytes(es.len() as u32) + encode_artist_entries(es)),
        es.len() <= u32::MAX,
        artists_fit(es),
    ensures
        artist_section_at(data, offset) == Ok::<Map<u128, (Seq<char>, Seq<char>)>, ReadError>(
            artist_map(es),
        ),
{
    lemma_placed_split(data, offset, u32_bytes(es.len() as u32), encode_artist_entries(es));
    lemma_u32_at(data, offset, es.len() as u32);
    lemma_artist_entries_round(data, offset + 4, es);
}

/// A graph index that was stored with its count is the one read.
proof fn lemma_index_section_round(data: Seq<u8>, offset: int, es: Seq<(u128, u64)>)
    requires
        placed(data, offset, u32_bytes(es.len() as u32) + encode_index_entries(es)),
        es.len() <= u32::MAX,
    ensures
        index_section_at(data, offset) == Ok::<Map<u128, u64>, ReadError>(index_map(es)),
{
    lemma_placed_split(data, offset, u32_bytes(es.len() as u32), encode_index_entries(es));
    lemma_u32_at(data, offset, es.len() as u32);
    lemma_index_entries_round(data, offset + 4, es);
}

/// Where a file is made of a header and four sections, each stands behind
/// the ones before it.
proof fn lemma_layout(h: Seq<u8>, l: Seq<u8>, a: Seq<u8>, f: Seq<u8>, r: Seq<u8>)
    ensures
        placed(h + l + a + f + r, 0, h),
        placed(h + l + a + f + r, h.len() as int, l),
        placed(h + l + a + f + r, (h.len() + l.len()) as int, a),
        placed(h + l + a + f + r, (h.len() + l.len() + a.len()) as int, f),
        placed(h + l + a + f + r, (h.len() + l.len() + a.len() + f.len()) as int, r),
{
    let data = h + l + a + f + r;
    assert(data.subrange(0, data.len() as int) =~= data);
    lemma_placed_split(data, 0, h + l + a + f, r);
    lemma_placed_split(data, 0, h + l + a, f);
    lemma_placed_split(data, 0, h + l, a);
    lemma_placed_split(data, 0, h, l);
}

/// Four offsets that were stored at the start of a file are the ones read.
proof fn lemma_header_round(data: Seq<u8>, o1: u32, o2: u32, o3: u32, o4: u32)
    requires
        placed(data, 0, u32_bytes(o1) + u32_bytes(o2) + u32_bytes(o3) + u32_bytes(o4)),
    ensures
        data.len() >= 16,
        u32_at(data, 0) == o1,
        u32_at(data, 4) == o2,
        u32_at(data, 8) == o3,
        u32_at(data, 12) == o4,
{
    lemma_placed_split(data, 0, u32_bytes(o1) + u32_bytes(o2) + u32_bytes(o3), u32_bytes(o4));
    lemma_placed_split(data, 0, u32_bytes(o1) + u32_bytes(o2), u32_bytes(o3));
    lemma_placed_split(data, 0, u32_bytes(o1), u32_bytes(o2));
    lemma_u32_at(data, 0, o1);
    lemma_u32_at(data, 4, o2);
    lemma_u32_at(data, 8, o3);
    lemma_u32_at(data, 12, o4);
}

/// The section of a lookup: its count, then its entries.
pub open spec fn lookup_section(es: Seq<(Seq<char>, Seq<u128>)>) -> Seq<u8> {
    u32_bytes(es.len() as u32) + encode_lookup_entries(es)
}

/// The section of an artist table: its count, then its entries.
pub open spec fn artist_section(es: Seq<(u128, Seq<char>, Seq<char>)>) -> Seq<u8> {
    u32_bytes(es.len() as u32) + encode_artist_entries(es)
}

/// The section of an index: its count, then its entries.
pub open spec fn index_section(es: Seq<(u128, u64)>) -> Seq<u8> {
    u32_bytes(es.len() as u32) + encode_index_entries(es)
}

/// The header of a file whose sections have the given lengths.
pub open spec fn header(l: nat, a: nat, f: nat) -> Seq<u8> {
    u32_bytes(16) + u32_bytes((16 + l) as u32) + u32_bytes((16 + l + a) as u32) + u32_bytes(
        (16 + l + a + f) as u32,
    )
}

/// A metadata file is its header and its four sections.
proof fn lemma_encode_shape(
    lookup: Seq<(Seq<char>, Seq<u128>)>,
    artists: Seq<(u128, Seq<char>, Seq<char>)>,
    forward: Seq<(u128, u64)>,
    reverse: Seq<(u128, u64)>,
)
    ensures
        encode_metadata(lookup, artists, forward, reverse) == header(
            lookup_section(lookup).len(),
            artist_section(artists).len(),
            index_section(forward).len(),
        ) + lookup_section(lookup) + artist_section(artists) + index_section(forward)
            + index_section(reverse),
        header(
            lookup_section(lookup).len(),
            artist_section(artists).len(),
            index_section(forward).len(),
        ).len() == 16,
        lookup_section(lookup).len() == 4 + encode_lookup_entries(lookup).len(),
        artist_section(artists).len() == 4 + encode_artist_entries(artists).len(),
        index_section(forward).len() == 4 + encode_index_entries(forward).len(),
{
}

/// What is read from a file whose header and sections read as given.
proof fn lemma_metadata_at(data: Seq<u8>, view: MetadataView)
    requires
        data.len() >= 16,
        lookup_section_at(data, u32_at(data, 0) as int) == Ok::<
            Map<Seq<char>, Seq<u128>>,
            ReadError,
        >(view.lookup),
        artist_section_at(data, u32_at(data, 4) as int) == Ok::<
            Map<u128, (Seq<char>, Seq<char>)>,
            ReadError,
        >(view.artists),
        index_section_at(data, u32_at(data, 8) as int) == Ok::<Map<u128, u64>, ReadError>(
            view.forward,
        ),
        index_section_at(data, u32_at(data, 12) as int) == Ok::<Map<u128, u64>, ReadError>(
            view.reverse,
        ),
    ensures
        metadata_at(data) == Ok::<MetadataView, ReadError>(view),
{
}

/// A metadata file made of tables gives those tables back when it is read:
/// every name with its identifiers in their order, every artist with its
/// name and URL, and every offset of both indexes.
pub proof fn lemma_metadata_round_trip(
    lookup: Seq<(Seq<char>, Seq<u128>)>,
    artists: Seq<(u128, Seq<char>, Seq<char>)>,
    forward: Seq<(u128, u64)>,
    reverse: Seq<(u128, u64)>,
)
    requires
        metadata_fits(lookup, artists, forward, reverse),
    ensures
        metadata_at(encode_metadata(lookup, artists, forward, reverse)) == Ok::<
            MetadataView,
            ReadError,
        >(
            (MetadataView {
                lookup: lookup_map(lookup),
                artists: artist_map(artists),
                forward: index_map(forward),
                reverse: index_map(reverse),
            }),
        ),
{
    let l = lookup_section(lookup);
    let a = artist_section(artists);
    let f = index_section(forward);
    let r = index_section(reverse);
    let h = header(l.len(), a.len(), f.len());
    let data = encode_metadata(lookup, artists, forward, reverse);
    lemma_encode_shape(lookup, artists, forward, reverse);
    lemma_layout(h, l, a, f, r);
    let o2 = (16 + l.len()) as u32;
    let o3 = (16 + l.len() + a.len()) as u32;
    let o4 = (16 + l.len() + a.len() + f.len()) as u32;
    lemma_header_round(data, 16, o2, o3, o4);
    lemma_lookup_section_round(data, 16, lookup);
    lemma_artist_section_round(data, o2 as int, artists);
    lemma_index_section_round(data, o3 as int, forward);
    lemma_index_section_round(data, o4 as int, reverse);
    lemma_metadata_at(
        data,
        MetadataView {
            lookup: lookup_map(lookup),
            artists: artist_map(artists),
            forward: index_map(forward),
            reverse: index_map(reverse),
        },
    );
}

/// The four offsets at the start of a metadata file.
struct SectionOffsets {
    lookup: usize,
    metadata: usize,
    forward_index: usize,
    reverse_index: usize,
}

/// Reads the four offsets of the header.
fn read_section_offsets(data: &[u8]) -> (r: Result<SectionOffsets, ReadError>)
    ensures
        data@.len() < 16 ==> r == Err::<SectionOffsets, ReadError>(ReadError::Truncated),
        data@.len() >= 16 ==> r.is_ok() && r.unwrap().lookup == u32_at(data@, 0)
            && r.unwrap().metadata == u32_at(data@, 4) && r.unwrap().forward_index == u32_at(
            data@,
            8,
        ) && r.unwrap().reverse_index == u32_at(data@, 12),
{
    let mut cursor = Cursor::new(data, 0);
    let lookup = match cursor.read_u32() {
        Ok(v) => v,
        Err(e) => {
            return Err(e);
        },
    };
    let metadata = match cursor.read_u32() {
        Ok(v) => v,
        Err(e) => {
            return Err(e);
        },
    };
    let forward_index = match cursor.read_u32() {
        Ok(v) => v,
        Err(e) => {
            return Err(e);
        },
    };
    let reverse_index = match cursor.read_u32() {
        Ok(v) => v,
        Err(e) => {
            return Err(e);
        },
    };
    Ok(
        SectionOffsets {
            lookup: lookup as usize,
            metadata: metadata as usize,
            forward_index: forward_index as usize,
            reverse_index: reverse_index as usize,
        },
    )
}

/// Reads the name lookup that starts at `offset`.
fn parse_name_lookup_section(data: &[u8], offset: usize) -> (r: Result<NameLookup, ReadError>)
    ensures
        match lookup_section_at(data@, offset as int) {
            Ok(m) => r.is_ok() && lookup_entries(r.unwrap()) == m,
            Err(e) => r.is_err() && r.unwrap_err() == e,
        },
{
    if offset > data.len() {
        return Err(ReadError::Truncated);
    }
    let mut cursor = Cursor::new(data, offset);
    let entry_count = match cursor.read_u32() {
        Ok(v) => v,
        Err(e) => {
            return Err(e);
        },
    };
    let mut name_lookup = name_map_new();
    let ghost start = offset + 4;
    let mut i: u32 = 0;
    assert(lookup_entries(name_lookup) =~= Map::empty());
    while i < entry_count
        invariant
            i <= entry_count,
            start == offset + 4,
            start <= data@.len(),
            entry_count == u32_at(data@, offset as int),
            cursor.bytes() == data@,
            lookup_entries_at(data@, start, i as nat) == Ok::<
                (Map<Seq<char>, Seq<u128>>, int),
                ReadError,
            >((lookup_entries(name_lookup), cursor.offset())),
        decreases entry_count - i,
    {
        let ghost p = cursor.offset();
        let clean_name = match cursor.read_string() {
            Ok(s) => s,
            Err(e) => {
                proof {
                    assert(lookup_entries_at(data@, start, (i + 1) as nat) is Err);
                    lemma_lookup_error_stays(data@, start, (i + 1) as nat, entry_count as nat);
                }
                return Err(e);
            },
        };
        let ghost q = cursor.offset();
        let uuid_count = match cursor.read_u16() {
            Ok(v) => v,
            Err(e) => {
                proof {
                    assert(lookup_entries_at(data@, start, (i + 1) as nat) is Err);
                    lemma_lookup_error_stays(data@, start, (i + 1) as nat, entry_count as nat);
                }
                return Err(e);
            },
        };
        let mut uuids: Vec<u128> = Vec::new();
        let mut j: u16 = 0;
        while j < uuid_count
            invariant
                j <= uuid_count,
                cursor.bytes() == data@,
                cursor.offset() == q + 2 + 16 * j,
                uuids@ == ids_at(data@, q + 2, j as int),
                uuid_count == u16_at(data@, q),
                q + 2 <= data@.len(),
                string_at(data@, p) == Ok::<(Seq<char>, int), ReadError>((clean_name@, q)),
                lookup_entries_at(data@, start, i as nat) == Ok::<
                    (Map<Seq<char>, Seq<u128>>, int),
                    ReadError,
                >((lookup_entries(name_lookup), p)),
                i < entry_count,
                start == offset + 4,
                start <= data@.len(),
                entry_count == u32_at(data@, offset as int),
            decreases uuid_count - j,
        {
            match cursor.read_id() {
                Ok(id) => {
                    uuids.push(id);
                    assert(uuids@ =~= ids_at(data@, q + 2, j + 1));
                },
                Err(e) => {
                    proof {
                        assert(lookup_entries_at(data@, start, (i + 1) as nat) is Err);
                        lemma_lookup_error_stays(data@, start, (i + 1) as nat, entry_count as nat);
                    }
                    return Err(e);
                },
            }
            j = j + 1;
        }
        let end = cursor.position();
        assert(lookup_entries_at(data@, start, (i + 1) as nat) == Ok::<
            (Map<Seq<char>, Seq<u128>>, int),
            ReadError,
        >((lookup_entries(name_lookup).insert(clean_name@, uuids@), end as int)));
        name_map_insert(&mut name_lookup, clean_name, uuids);
        i = i + 1;
    }
    Ok(name_lookup)
}

/// Reads the artist table that starts at `offset`.
pub(crate) fn parse_artist_metadata_section(data: &[u8], offset: usize) -> (r: Result<
    ArtistMetadata,
    ReadError,
>)
    ensures
        match artist_section_at(data@, offset as int) {
            Ok(m) => r.is_ok() && artists_match(r.unwrap()@, m),
            Err(e) => r.is_err() && r.unwrap_err() == e,
        },
{
    if offset > data.len() {
        return Err(ReadError::Truncated);
    }
    let mut cursor = Cursor::new(data, offset);
    let entry_count = match cursor.read_u32() {
        Ok(v) => v,
        Err(e) => {
            return Err(e);
        },
    };
    let mut artist_metadata: ArtistMetadata = id_map_new();
    let ghost start = offset + 4;
    let ghost mut shown: Map<u128, (Seq<char>, Seq<char>)> = Map::empty();
    let mut i: u32 = 0;
    assert(artist_metadata@.dom() =~= shown.dom());
    while i < entry_count
        invariant
            i <= entry_count,
            start == offset + 4,
            start <= data@.len(),
            entry_count == u32_at(data@, offset as int),
            cursor.bytes() == data@,
            artists_match(artist_metadata@, shown),
            artist_entries_at(data@, start, i as nat) == Ok::<
                (Map<u128, (Seq<char>, Seq<char>)>, int),
                ReadError,
            >((shown, cursor.offset())),
        decreases entry_count - i,
    {
        let artist_uuid = match cursor.read_id() {
            Ok(v) => v,
            Err(e) => {
                proof {
                    assert(artist_entries_at(data@, start, (i + 1) as nat) is Err);
                    lemma_artist_error_stays(data@, start, (i + 1) as nat, entry_count as nat);
                }
                return Err(e);
            },
        };
        let artist_name = match cursor.read_string() {
            Ok(v) => v,
            Err(e) => {
                proof {
                    assert(artist_entries_at(data@, start, (i + 1) as nat) is Err);
                    lemma_artist_error_stays(data@, start, (i + 1) as nat, entry_count as nat);
                }
                return Err(e);
            },
        };
        let artist_url = match cursor.read_string() {
            Ok(v) => v,
            Err(e) => {
                proof {
                    assert(artist_entries_at(data@, start, (i + 1) as nat) is Err);
                    lemma_artist_error_stays(data@, start, (i + 1) as nat, entry_count as nat);
                }
                return Err(e);
            },
        };
        proof {
            shown = shown.insert(artist_uuid, (artist_name@, artist_url@));
        }
        let artist = Artist { id: artist_uuid, name: artist_name, url: artist_url };
        id_map_insert(&mut artist_metadata, artist_uuid, artist);
        assert(artist_metadata@.dom() =~= shown.dom());
        i = i + 1;
    }
    Ok(artist_metadata)
}

/// Reads the graph index that starts at `offset`.
pub(crate) fn parse_graph_index_section(data: &[u8], offset: usize) -> (r: Result<GraphIndex, ReadError>)
    ensures
        match index_section_at(data@, offset as int) {
            Ok(m) => r.is_ok() && r.unwrap()@ == m,
            Err(e) => r.is_err() && r.unwrap_err() == e,
        },
{
    if offset > data.len() {
        return Err(ReadError::Truncated);
    }
    let mut cursor = Cursor::new(data, offset);
    let entry_count = match cursor.read_u32() {
        Ok(v) => v,
        Err(e) => {
            return Err(e);
        },
    };
    let mut graph_index: GraphIndex = id_map_new();
    let ghost start = offset + 4;
    let mut i: u32 = 0;
    assert(graph_index@ =~= Map::empty());
    while i < entry_count
        invariant
            i <= entry_count,
            start == offset + 4,
            start <= data@.len(),
            entry_count == u32_at(data@, offset as int),
            cursor.bytes() == data@,
            index_entries_at(data@, start, i as nat) == Ok::<(Map<u128, u64>, int), ReadError>(
                (graph_index@, cursor.offset()),
            ),
        decreases entry_count - i,
    {
        let artist_uuid = match cursor.read_id() {
            Ok(v) => v,
            Err(e) => {
                proof {
                    assert(index_entries_at(data@, start, (i + 1) as nat) is Err);
                    lemma_index_error_stays(data@, start, (i + 1) as nat, entry_count as nat);
                }
                return Err(e);
            },
        };
        let file_position = match cursor.read_u64() {
            Ok(v) => v,
            Err(e) => {
                proof {
                    assert(index_entries_at(data@, start, (i + 1) as nat) is Err);
                    lemma_index_error_stays(data@, start, (i + 1) as nat, entry_count as nat);
                }
                return Err(e);
            },
        };
        id_map_insert(&mut graph_index, artist_uuid, file_position);
        i = i + 1;
    }
    Ok(graph_index)
}

/// Reads a metadata file: the name lookup, the artist table and the two
/// graph indexes.
pub fn parse_unified_metadata(binary_data: &[u8]) -> (r: Result<
    (NameLookup, ArtistMetadata, GraphIndex, GraphIndex),
    ReadError,
>)
    ensures
        match metadata_at(binary_data@) {
            Ok(view) => {
                &&& r.is_ok()
                &&& lookup_entries(r.unwrap().0) == view.lookup
                &&& artists_match(r.unwrap().1@, view.artists)
                &&& r.unwrap().2@ == view.forward
                &&& r.unwrap().3@ == view.reverse
            },
            Err(e) => r.is_err() && r.unwrap_err() == e,
        },
{
    let section_offsets = match read_section_offsets(binary_data) {
        Ok(v) => v,
        Err(e) => {
            return Err(e);
        },
    };
    let name_lookup = match parse_name_lookup_section(binary_data, section_offsets.lookup) {
        Ok(v) => v,
        Err(e) => {
            return Err(e);
        },
    };
    let artist_metadata = match parse_artist_metadata_section(
        binary_data,
        section_offsets.metadata,
    ) {
        Ok(v) => v,
        Err(e) => {
            return Err(e);
        },
    };
    let forward_index = match parse_graph_index_section(
        binary_data,
        section_offsets.forward_index,
    ) {
        Ok(v) => v,
        Err(e) => {
            return Err(e);
        },
    };
    let reverse_index = match parse_graph_index_section(
        binary_data,
        section_offsets.reverse_index,
    ) {
        Ok(v) => v,
        Err(e) => {
            return Err(e);
        },
    };
    Ok((name_lookup, artist_metadata, forward_index, reverse_index))
}


/// What a failed lookup says: that no artist of the name is in the database.
pub open spec fn not_found_message(name: Seq<char>) -> Seq<char> {
    "Artist '"@ + name + "' not found in database"@
}

/// Builds the message of a failed lookup.
pub(crate) fn not_found(name: &str) -> (r: String)
    ensures
        r@ == not_found_message(name@),
{
    let message = String::from_str("Artist '");
    let message = message.concat(name);
    message.concat("' not found in database")
}

/// The artist that a name stands for by default: the first of those listed
/// under its canonical form.
pub open spec fn default_match(name: Seq<char>, entries: Map<Seq<char>, Seq<u128>>) -> Option<u128> {
    if entries.contains_key(cleaned(name)) && entries[cleaned(name)].len() > 0 {
        Some(entries[cleaned(name)][0])
    } else {
        None
    }
}

/// Finds the artist that a name stands for by default.
pub fn find_artist_id(name: &str, lookup: &NameLookup) -> (r: Result<u128, String>)
    ensures
        match default_match(name@, lookup_entries(*lookup)) {
            Some(id) => r == Ok::<u128, String>(id),
            None => r.is_err() && r.unwrap_err()@ == not_found_message(name@),
        },
{
    let clean_name = clean_str(name);
    match name_map_get(lookup, clean_name.as_str()) {
        Some(uuids) => {
            if uuids.len() > 0 {
                Ok(uuids[0])
            } else {
                Err(not_found(name))
            }
        },
        None => Err(not_found(name)),
    }
}

/// Whether artist `id` is known and its display name, in lower case, is
/// `wanted`.
pub open spec fn is_exact(artists: Map<u128, Artist>, id: u128, wanted: Seq<char>) -> bool {
    artists.contains_key(id) && lowercased(artists[id].name@) == wanted
}

/// The first of `ids` whose display name in lower case is `wanted`.
pub open spec fn first_exact(ids: Seq<u128>, artists: Map<u128, Artist>, wanted: Seq<char>) -> Option<
    u128,
>
    decreases ids.len(),
{
    if ids.len() == 0 {
        None
    } else {
        match first_exact(ids.drop_last(), artists, wanted) {
            Some(id) => Some(id),
            None => if is_exact(artists, ids.last(), wanted) {
                Some(ids.last())
            } else {
                None
            },
        }
    }
}

/// Once an exact match is found among the first identifiers, it is the
/// exact match of the whole list.
proof fn lemma_first_exact_stays(
    ids: Seq<u128>,
    artists: Map<u128, Artist>,
    wanted: Seq<char>,
    i: int,
)
    requires
        0 <= i <= ids.len(),
        first_exact(ids.take(i), artists, wanted) is Some,
    ensures
        first_exact(ids, artists, wanted) == first_exact(ids.take(i), artists, wanted),
    decreases ids.len() - i,
{
    if i < ids.len() {
        let next = ids.take(i + 1);
        assert(next.drop_last() =~= ids.take(i));
        lemma_first_exact_stays(ids, artists, wanted, i + 1);
    } else {
        assert(ids.take(i) =~= ids);
    }
}

/// The artist that a name stands for: of those listed under its canonical
/// form, the first whose display name is the name but for case, and the
/// first of all where there is none.
pub open spec fn best_match(
    name: Seq<char>,
    entries: Map<Seq<char>, Seq<u128>>,
    artists: Map<u128, Artist>,
) -> Option<u128> {
    if entries.contains_key(cleaned(name)) && entries[cleaned(name)].len() > 0 {
        let ids = entries[cleaned(name)];
        match first_exact(ids, artists, lowercased(name)) {
            Some(id) => Some(id),
            None => Some(ids[0]),
        }
    } else {
        None
    }
}

/// Finds the artist that a name stands for.
pub fn find_best_artist_match(
    name: &str,
    name_lookup: &NameLookup,
    artist_metadata: &ArtistMetadata,
) -> (r: Result<u128, String>)
    ensures
        match best_match(name@, lookup_entries(*name_lookup), artist_metadata@) {
            Some(id) => r == Ok::<u128, String>(id),
            None => r.is_err() && r.unwrap_err()@ == not_found_message(name@),
        },
{
    let lowercase_query = lowercase(name);
    let clean_query = clean_str(name);
    let artist_ids = match name_map_get(name_lookup, clean_query.as_str()) {
        Some(ids) => ids,
        None => {
            return Err(not_found(name));
        },
    };
    if artist_ids.len() == 0 {
        return Err(not_found(name));
    }
    let mut i: usize = 0;
    while i < artist_ids.len()
        invariant
            i <= artist_ids.len(),
            artist_ids.len() > 0,
            lookup_entries(*name_lookup).contains_key(cleaned(name@)),
            artist_ids@ == lookup_entries(*name_lookup)[cleaned(name@)],
            lowercase_query@ == lowercased(name@),
            first_exact(artist_ids@.take(i as int), artist_metadata@, lowercase_query@) is None,
        decreases artist_ids.len() - i,
    {
        let artist_id = artist_ids[i];
        proof {
            let next = artist_ids@.take(i + 1);
            assert(next.drop_last() =~= artist_ids@.take(i as int));
            assert(next.last() == artist_id);
        }
        match id_map_get(artist_metadata, artist_id) {
            Some(artist) => {
                let lowered = lowercase(artist.name.as_str());
                if lowered == lowercase_query {
                    proof {
                        assert(is_exact(artist_metadata@, artist_id, lowercase_query@));
                        assert(first_exact(
                            artist_ids@.take(i + 1),
                            artist_metadata@,
                            lowercase_query@,
                        ) == Some(artist_id));
                        lemma_first_exact_stays(
                            artist_ids@,
                            artist_metadata@,
                            lowercase_query@,
                            i + 1,
                        );
                    }
                    return Ok(artist_id);
                }
            },
            None => {},
        }
        i = i + 1;
    }
    assert(artist_ids@.take(artist_ids.len() as int) =~= artist_ids@);
    Ok(artist_ids[0])
}

} // verus!
