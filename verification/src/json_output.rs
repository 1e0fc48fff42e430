//! The report of a search as it is written out.

use crate::fx::id_map_get;
use crate::parsing::Artist;
use crate::pathfinding::utils::PathStep;
use rustc_hash::FxHashMap;
use vstd::prelude::*;

verus! {

#[derive(Debug, Clone)]
pub struct JsonOutput {
    pub query: JsonQuery,
    pub result: JsonResult,
    pub stats: JsonStats,
}

#[derive(Debug, Clone)]
pub struct JsonQuery {
    pub from: String,
    pub to: String,
    pub options: JsonOptions,
}

#[derive(Debug, Clone, Copy)]
pub struct JsonOptions {
    pub weighted: bool,
    pub min_match: u32,
    pub top_related: usize,
}

#[derive(Debug, Clone)]
pub struct JsonResult {
    pub found: bool,
    pub path: Option<Vec<JsonArtist>>,
}

/// An artist of the path; the first carries no similarity.
#[derive(Debug, Clone)]
pub struct JsonArtist {
    pub name: String,
    pub url: String,
    pub similarity_to_previous: Option<u32>,
}

#[derive(Debug, Clone, Copy)]
pub struct JsonStats {
    pub search_time_ms: u64,
    pub nodes_explored: usize,
}

/// Whether `shown` is step `i` of the path as the table of artists names it.
pub open spec fn shows_step(
    shown: JsonArtist,
    path: Seq<PathStep>,
    i: int,
    artists: Map<u128, Artist>,
) -> bool {
    &&& shown.name@ == artists[path[i].0].name@
    &&& shown.url@ == artists[path[i].0].url@
    &&& shown.similarity_to_previous == (if i > 0 {
        Some(path[i].1)
    } else {
        None::<u32>
    })
}

/// Names the artists of a path.
fn name_path(path: &Vec<PathStep>, artist_metadata: &FxHashMap<u128, Artist>) -> (r: Vec<JsonArtist>)
    requires
        forall|i: int| 0 <= i < path@.len() ==> artist_metadata@.contains_key((#[trigger] path@[i]).0),
    ensures
        r@.len() == path@.len(),
        forall|i: int| 0 <= i < r@.len() ==> shows_step(#[trigger] r@[i], path@, i, artist_metadata@),
{
    let mut named: Vec<JsonArtist> = Vec::new();
    let mut i: usize = 0;
    while i < path.len()
        invariant
            i <= path.len(),
            named@.len() == i,
            forall|j: int|
                0 <= j < path@.len() ==> artist_metadata@.contains_key((#[trigger] path@[j]).0),
            forall|j: int| 0 <= j < i ==> shows_step(#[trigger] named@[j], path@, j, artist_metadata@),
        decreases path.len() - i,
    {
        let (artist_id, similarity) = path[i];
        assert(artist_metadata@.contains_key(path@[i as int].0));
        let artist_info = id_map_get(artist_metadata, artist_id).unwrap();
        named.push(
            JsonArtist {
                name: artist_info.name.clone(),
                url: artist_info.url.clone(),
                similarity_to_previous: if i > 0 {
                    Some(similarity)
                } else {
                    None
                },
            },
        );
        i = i + 1;
    }
    named
}

/// Makes the report of a search: the query, the path with its artists
/// named, and the work done. The time taken comes in microseconds and is
/// reported in whole milliseconds.
pub fn create_json_output(
    path: Option<Vec<PathStep>>,
    artists_visited: usize,
    search_duration: u64,
    from_name: String,
    to_name: String,
    options: JsonOptions,
    artist_metadata: &FxHashMap<u128, Artist>,
) -> (r: JsonOutput)
    requires
        path.is_some() ==> forall|i: int|
            0 <= i < path.unwrap()@.len() ==> artist_metadata@.contains_key(
                (#[trigger] path.unwrap()@[i]).0,
            ),
    ensures
        r.query.from@ == from_name@,
        r.query.to@ == to_name@,
        r.query.options == options,
        r.result.found == path.is_some(),
        r.result.path.is_some() == path.is_some(),
        path.is_some() ==> r.result.path.unwrap()@.len() == path.unwrap()@.len() && forall|i: int|
            0 <= i < path.unwrap()@.len() ==> shows_step(
                #[trigger] r.result.path.unwrap()@[i],
                path.unwrap()@,
                i,
                artist_metadata@,
            ),
        r.stats.search_time_ms == search_duration / 1000,
        r.stats.nodes_explored == artists_visited,
{
    let json_path = match &path {
        Some(steps) => Some(name_path(steps, artist_metadata)),
        None => None,
    };
    JsonOutput {
        query: JsonQuery { from: from_name, to: to_name, options },
        result: JsonResult { found: path.is_some(), path: json_path },
        stats: JsonStats { search_time_ms: search_duration / 1000, nodes_explored: artists_visited },
    }
}

} // verus!
