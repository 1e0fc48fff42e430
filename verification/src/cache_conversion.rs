//! What is kept of an artist between questions, made from what Last.fm says
//! of it, and what is shown of it later.

use crate::artist_details::clone_opt;
use crate::artist_details::clone_texts;
use crate::artist_details::convert_cached_tracks;
use crate::artist_details::extract_image_url;
use crate::artist_details::image_url_of;
use crate::artist_details::names_of_tags;
use crate::artist_details::non_empty;
use crate::artist_details::opt_text;
use crate::artist_details::replace_all;
use crate::artist_details::replaced;
use crate::artist_details::shows_cached;
use crate::artist_details::shows_cached_track;
use crate::artist_details::tag_names;
use crate::artist_details::texts;
use crate::lastfm::LastFmArtist;
use crate::models::CachedLastFmData;
use crate::models::CachedTrackData;
use crate::models::LastFmArtistData;
use crate::models::LastFmTrackData;
use crate::string_normalization::trim;
use crate::string_normalization::trimmed;
use vstd::prelude::*;

verus! {

/// A biography as it is kept: without the mark that the service leaves in
/// it, and without the whitespace at its ends; none where nothing is left.
pub open spec fn kept_bio(text: Seq<char>) -> Option<Seq<char>> {
    non_empty(trimmed(replaced(text, "Read more on Last.fm"@, ""@)))
}

/// Cleans a biography to keep it.
fn keep_bio(text: &str) -> (r: Option<String>)
    ensures
        opt_text(r) == kept_bio(text@),
{
    let unsigned = replace_all(text, "Read more on Last.fm", "");
    let kept = trim(unsigned.as_str());
    if kept.as_str().is_empty() {
        None
    } else {
        Some(kept)
    }
}

/// Whether `cached` keeps what Last.fm says of an artist.
pub open spec fn keeps(cached: CachedLastFmData, artist: LastFmArtist) -> bool {
    &&& opt_text(cached.url) == Some(artist.url@)
    &&& opt_text(cached.image_url) == image_url_of(artist.image@)
    &&& opt_text(cached.listeners) == (match artist.stats {
        Some(stats) => Some(stats.listeners@),
        None => None,
    })
    &&& opt_text(cached.playcount) == (match artist.stats {
        Some(stats) => Some(stats.playcount@),
        None => None,
    })
    &&& texts(cached.tags@) == tag_names(artist.tags)
    &&& opt_text(cached.bio_summary) == (match artist.bio {
        Some(bio) => kept_bio(bio.summary@),
        None => None,
    })
    &&& opt_text(cached.bio_full) == (match artist.bio {
        Some(bio) => kept_bio(bio.content@),
        None => None,
    })
}

/// Makes what is kept of an artist from what Last.fm says of it.
pub fn convert_lastfm_to_cached(artist: &LastFmArtist) -> (r: CachedLastFmData)
    ensures
        keeps(r, *artist),
{
    let image_url = extract_image_url(artist.image.as_slice());
    let tags = names_of_tags(&artist.tags);
    let (listeners, playcount) = match &artist.stats {
        Some(stats) => (Some(stats.listeners.clone()), Some(stats.playcount.clone())),
        None => (None, None),
    };
    let (bio_summary, bio_full) = match &artist.bio {
        Some(bio) => (keep_bio(bio.summary.as_str()), keep_bio(bio.content.as_str())),
        None => (None, None),
    };
    CachedLastFmData {
        url: Some(artist.url.clone()),
        image_url,
        listeners,
        playcount,
        tags,
        bio_summary,
        bio_full,
    }
}

/// Makes what is shown of an artist from what was kept of it, under the
/// name and the address given.
pub fn convert_cached_to_response(cached: &CachedLastFmData, artist_name: &str, artist_url: &str) -> (r:
    LastFmArtistData)
    ensures
        shows_cached(r, *cached, artist_name@),
        r.url@ == artist_url@,
{
    LastFmArtistData {
        name: artist_name.to_owned(),
        url: artist_url.to_owned(),
        image_url: clone_opt(&cached.image_url),
        listeners: clone_opt(&cached.listeners),
        plays: clone_opt(&cached.playcount),
        tags: clone_texts(&cached.tags),
        bio_summary: clone_opt(&cached.bio_summary),
        bio_full: clone_opt(&cached.bio_full),
    }
}

/// Makes what is shown of an artist from what Last.fm says of it, by way of
/// what is kept.
pub fn convert_lastfm_to_response_data(artist: &LastFmArtist, artist_name: &str, artist_url: &str) -> (r:
    LastFmArtistData)
    ensures
        exists|cached: CachedLastFmData| keeps(cached, *artist) && #[trigger] shows_cached(
            r,
            cached,
            artist_name@,
        ),
        r.url@ == artist_url@,
{
    let cached = convert_lastfm_to_cached(artist);
    let shown = convert_cached_to_response(&cached, artist_name, artist_url);
    assert(shows_cached(shown, cached, artist_name@));
    shown
}

/// Makes what is shown of the tracks from what was kept of them.
pub fn convert_cached_tracks_to_response(cached: &[CachedTrackData]) -> (r: Vec<LastFmTrackData>)
    ensures
        r@.len() == cached@.len(),
        forall|i: int| 0 <= i < r@.len() ==> shows_cached_track(#[trigger] r@[i], cached@[i]),
{
    convert_cached_tracks(cached)
}

} // verus!
