//! What the Last.fm service says of an artist and of its tracks, as it comes
//! off the wire.

use vstd::prelude::*;

verus! {

#[derive(Debug, Clone)]
pub struct LastFmArtistResponse {
    pub artist: LastFmArtist,
}

#[derive(Debug, Clone)]
pub struct LastFmArtist {
    pub name: String,
    pub mbid: Option<String>,
    pub url: String,
    pub image: Vec<LastFmImage>,
    pub stats: Option<LastFmStats>,
    pub tags: Option<LastFmTags>,
    pub bio: Option<LastFmBio>,
}

/// A picture of an artist in one size.
#[derive(Debug, Clone)]
pub struct LastFmImage {
    pub url: String,
    pub size: String,
}

#[derive(Debug, Clone)]
pub struct LastFmStats {
    pub listeners: String,
    pub playcount: String,
}

#[derive(Debug, Clone)]
pub struct LastFmTags {
    pub tag: Vec<LastFmTag>,
}

#[derive(Debug, Clone)]
pub struct LastFmTag {
    pub name: String,
    pub url: String,
}

#[derive(Debug, Clone)]
pub struct LastFmBio {
    pub summary: String,
    pub content: String,
}

#[derive(Debug, Clone)]
pub struct LastFmTopTracksResponse {
    pub toptracks: LastFmTopTracks,
}

#[derive(Debug, Clone)]
pub struct LastFmTopTracks {
    pub track: Vec<LastFmTrack>,
}

#[derive(Debug, Clone)]
pub struct LastFmTrack {
    pub name: String,
    pub url: String,
    pub playcount: String,
    pub listeners: String,
}

} // verus!
