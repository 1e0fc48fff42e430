//! The shapes of what a server answers and is asked.

use crate::algorithm::Algorithm;
use crate::graph_response::GraphEdge;
use crate::graph_response::GraphNode;
use crate::graph_response::PathArtist;
use vstd::prelude::*;

verus! {

#[derive(Debug, Clone)]
pub struct HealthResponse {
    pub status: String,
    pub message: String,
}

/// A search for artists by name.
#[derive(Debug, Clone)]
pub struct SearchQuery {
    pub q: String,
    pub limit: usize,
}

/// How many results a search returns where the query names no limit.
pub fn default_limit() -> (r: usize)
    ensures
        r == 10,
{
    10
}

/// How many edges per artist a query uses where it names no number.
pub fn default_max_relations() -> (r: usize)
    ensures
        r == 80,
{
    80
}

/// How many artists a query may find where it names no budget.
pub fn default_budget() -> (r: usize)
    ensures
        r == 100,
{
    100
}

/// One artist found by name.
#[derive(Debug, Clone)]
pub struct ArtistSearchResult {
    pub id: u128,
    pub name: String,
    pub url: String,
}

/// The answer to a search by name.
#[derive(Debug, Clone)]
pub struct SearchResponse {
    pub query: String,
    pub results: Vec<ArtistSearchResult>,
    pub count: usize,
}

/// A question for a path between two artists. The least similarity is
/// given by its bits.
#[derive(Debug, Clone, Copy)]
pub struct PathQuery {
    pub from_id: u128,
    pub to_id: u128,
    pub algorithm: Algorithm,
    pub min_similarity: u32,
    pub max_relations: usize,
}

/// A question for the surroundings of an artist.
#[derive(Debug, Clone, Copy)]
pub struct ExploreQuery {
    pub artist_id: u128,
    pub algorithm: Algorithm,
    pub min_similarity: u32,
    pub max_relations: usize,
    pub budget: usize,
}

/// A question for a path between two artists with its neighbourhood.
#[derive(Debug, Clone, Copy)]
pub struct EnhancedPathQuery {
    pub from_id: u128,
    pub to_id: u128,
    pub algorithm: Algorithm,
    pub min_similarity: u32,
    pub max_relations: usize,
    pub budget: usize,
}

/// How much work a search did.
#[derive(Debug, Clone, Copy)]
pub struct SearchStats {
    pub artists_visited: usize,
    pub duration_ms: u64,
}

#[derive(Debug, Clone, Copy)]
pub struct StatsResponse {
    pub total_artists: usize,
}

/// The answer to a search for a path.
#[derive(Debug, Clone)]
pub struct PathResponse {
    pub path: Option<Vec<PathArtist>>,
    pub artist_count: usize,
    pub step_count: usize,
    pub algorithm: Algorithm,
    pub search_stats: SearchStats,
}

/// The answer to an exploration.
#[derive(Debug, Clone)]
pub struct GraphExploreResponse {
    pub center_artist: PathArtist,
    pub nodes: Vec<GraphNode>,
    pub edges: Vec<GraphEdge>,
    pub total_found: usize,
    pub search_stats: SearchStats,
}

/// The answer to a search for a path with its neighbourhood.
#[derive(Debug, Clone)]
pub struct EnhancedPathResponse {
    pub status: String,
    pub data: Option<EnhancedPathData>,
    pub error: Option<EnhancedPathError>,
    pub search_stats: SearchStats,
}

#[derive(Debug, Clone)]
pub struct EnhancedPathData {
    pub primary_path: Vec<PathArtist>,
    pub nodes: Vec<GraphNode>,
    pub edges: Vec<GraphEdge>,
    pub total_artists: usize,
}

#[derive(Debug, Clone)]
pub struct EnhancedPathError {
    pub error_type: String,
    pub message: String,
    pub path_length: Option<usize>,
    pub minimum_budget_needed: Option<usize>,
    pub primary_path: Option<Vec<PathArtist>>,
}

/// What is shown of an artist from Last.fm.
#[derive(Debug, Clone)]
pub struct LastFmArtistData {
    pub name: String,
    pub url: String,
    pub image_url: Option<String>,
    pub listeners: Option<String>,
    pub plays: Option<String>,
    pub tags: Vec<String>,
    pub bio_summary: Option<String>,
    pub bio_full: Option<String>,
}

/// What is shown of a track.
#[derive(Debug, Clone)]
pub struct LastFmTrackData {
    pub name: String,
    pub url: String,
    pub playcount: String,
    pub listeners: String,
    pub preview_url: Option<String>,
}

/// What is kept of an artist from Last.fm.
#[derive(Debug, Clone)]
pub struct CachedLastFmData {
    pub url: Option<String>,
    pub image_url: Option<String>,
    pub listeners: Option<String>,
    pub playcount: Option<String>,
    pub tags: Vec<String>,
    pub bio_summary: Option<String>,
    pub bio_full: Option<String>,
}

/// What is kept of a track.
#[derive(Debug, Clone)]
pub struct CachedTrackData {
    pub name: String,
    pub url: String,
    pub playcount: String,
    pub listeners: String,
    pub preview_url: Option<String>,
}

/// What is kept of an artist, and when it was fetched, in seconds since the
/// Unix epoch.
#[derive(Debug, Clone)]
pub struct CachedArtistMetadata {
    pub id: String,
    pub name: String,
    pub url: String,
    pub last_fetched: i64,
    pub lastfm: Option<CachedLastFmData>,
    pub tracks: Option<Vec<CachedTrackData>>,
}

/// The answer to a question about one artist.
#[derive(Debug, Clone)]
pub struct ArtistDetailsResponse {
    pub id: u128,
    pub name: String,
    pub url: String,
    pub lastfm_data: Option<LastFmArtistData>,
    pub top_tracks: Option<Vec<LastFmTrackData>>,
}

#[derive(Debug, Clone)]
pub struct ITunesSearchResponse {
    pub results: Vec<ITunesTrack>,
}

#[derive(Debug, Clone)]
pub struct ITunesTrack {
    pub track_name: String,
    pub artist_name: String,
    pub preview_url: String,
    pub track_id: u64,
}

} // verus!
