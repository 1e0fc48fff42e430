//! What is shown of an artist, made from what Last.fm says of it.

use crate::lastfm::LastFmArtist;
use crate::lastfm::LastFmBio;
use crate::lastfm::LastFmImage;
use crate::lastfm::LastFmTags;
use crate::lastfm::LastFmTrack;
use crate::models::ArtistDetailsResponse;
use crate::models::CachedArtistMetadata;
use crate::models::CachedLastFmData;
use crate::models::CachedTrackData;
use crate::models::LastFmArtistData;
use crate::models::LastFmTrackData;
use crate::string_normalization::trim;
use crate::string_normalization::trimmed;
use vstd::prelude::*;
use vstd::string::StringExecFns;

verus! {

/// What `str::replace` makes of a string.
pub uninterp spec fn replaced(s: Seq<char>, from: Seq<char>, to: Seq<char>) -> Seq<char>;

/// `str::replace`: the string with every match of `from` replaced by `to`.
#[verifier::external_body]
pub(crate) fn replace_all(s: &str, from: &str, to: &str) -> (r: String)
    ensures
        r@ == replaced(s@, from@, to@),
{
    s.replace(from, to)
}

/// Whether a picture is of a size that is shown.
pub open spec fn is_shown_size(image: LastFmImage) -> bool {
    image.size@ == "large"@ || image.size@ == "medium"@
}

/// The first picture of a size that is shown.
pub open spec fn first_shown(images: Seq<LastFmImage>) -> Option<LastFmImage>
    decreases images.len(),
{
    if images.len() == 0 {
        None
    } else {
        match first_shown(images.drop_last()) {
            Some(image) => Some(image),
            None => if is_shown_size(images.last()) {
                Some(images.last())
            } else {
                None
            },
        }
    }
}

/// Once a picture is found among the first, it is the one found in all.
proof fn lemma_first_shown_stays(images: Seq<LastFmImage>, i: int)
    requires
        0 <= i <= images.len(),
        first_shown(images.take(i)) is Some,
    ensures
        first_shown(images) == first_shown(images.take(i)),
    decreases images.len() - i,
{
    if i < images.len() {
        assert(images.take(i + 1).drop_last() =~= images.take(i));
        lemma_first_shown_stays(images, i + 1);
    } else {
        assert(images.take(i) =~= images);
    }
}

/// The address of the picture to show: that of the first large or medium
/// picture, unless it is empty.
pub open spec fn image_url_of(images: Seq<LastFmImage>) -> Option<Seq<char>> {
    match first_shown(images) {
        Some(image) => if image.url@.len() == 0 {
            None
        } else {
            Some(image.url@)
        },
        None => None,
    }
}

/// Picks the address of the picture to show.
pub fn extract_image_url(images: &[LastFmImage]) -> (r: Option<String>)
    ensures
        r.is_some() == image_url_of(images@).is_some(),
        r.is_some() ==> r.unwrap()@ == image_url_of(images@).unwrap(),
{
    let large = String::from_str("large");
    let medium = String::from_str("medium");
    let mut i: usize = 0;
    while i < images.len()
        invariant
            i <= images.len(),
            large@ == "large"@,
            medium@ == "medium"@,
            first_shown(images@.take(i as int)) is None,
        decreases images.len() - i,
    {
        proof {
            assert(images@.take(i + 1).drop_last() =~= images@.take(i as int));
            assert(images@.take(i + 1).last() == images@[i as int]);
        }
        if images[i].size == large || images[i].size == medium {
            proof {
                assert(is_shown_size(images@[i as int]));
                lemma_first_shown_stays(images@, i + 1);
            }
            if images[i].url.as_str().is_empty() {
                return None;
            }
            return Some(images[i].url.clone());
        }
        i = i + 1;
    }
    assert(images@.take(images.len() as int) =~= images@);
    None
}

/// The names of the tags, in their order; none where there are no tags.
pub open spec fn tag_names(tags_wrapper: Option<LastFmTags>) -> Seq<Seq<char>> {
    match tags_wrapper {
        Some(tags) => Seq::new(tags.tag@.len(), |i: int| tags.tag@[i].name@),
        None => Seq::empty(),
    }
}

/// The strings of a list, each as its characters.
pub open spec fn texts(v: Seq<String>) -> Seq<Seq<char>> {
    Seq::new(v.len(), |i: int| v[i]@)
}

/// The names of the tags.
pub(crate) fn names_of_tags(tags_wrapper: &Option<LastFmTags>) -> (r: Vec<String>)
    ensures
        texts(r@) == tag_names(*tags_wrapper),
{
    let mut names: Vec<String> = Vec::new();
    match tags_wrapper {
        Some(tags) => {
            let mut i: usize = 0;
            while i < tags.tag.len()
                invariant
                    i <= tags.tag.len(),
                    names@.len() == i,
                    forall|j: int| 0 <= j < i ==> (#[trigger] names@[j])@ == tags.tag@[j].name@,
                decreases tags.tag.len() - i,
            {
                names.push(tags.tag[i].name.clone());
                i = i + 1;
            }
            assert(texts(names@) =~= tag_names(*tags_wrapper));
        },
        None => {
            assert(texts(names@) =~= tag_names(*tags_wrapper));
        },
    }
    names
}

/// Takes the names of the tags.
pub fn extract_tags(tags_wrapper: Option<LastFmTags>) -> (r: Vec<String>)
    ensures
        texts(r@) == tag_names(tags_wrapper),
{
    names_of_tags(&tags_wrapper)
}

/// A biography as it is shown: the marks that the service leaves in it are
/// taken out, and the whitespace at its ends.
pub open spec fn clean_bio(text: Seq<char>) -> Seq<char> {
    trimmed(
        replaced(
            replaced(replaced(text, "&quot;"@, "\""@), "Read more on Last.fm"@, ""@),
            "\\n"@,
            "\n"@,
        ),
    )
}

/// Cleans a biography for display.
pub fn clean_bio_text(text: &str) -> (r: String)
    ensures
        r@ == clean_bio(text@),
{
    let unquoted = replace_all(text, "&quot;", "\"");
    let unsigned = replace_all(unquoted.as_str(), "Read more on Last.fm", "");
    let unescaped = replace_all(unsigned.as_str(), "\\n", "\n");
    trim(unescaped.as_str())
}

/// A text, unless it is empty.
pub open spec fn non_empty(text: Seq<char>) -> Option<Seq<char>> {
    if text.len() == 0 {
        None
    } else {
        Some(text)
    }
}

/// What an optional string holds.
pub open spec fn opt_text(o: Option<String>) -> Option<Seq<char>> {
    match o {
        Some(s) => Some(s@),
        None => None,
    }
}

/// Cleans the two texts of a biography; an empty text counts as none.
pub fn process_bio(bio: LastFmBio) -> (r: (Option<String>, Option<String>))
    ensures
        opt_text(r.0) == non_empty(clean_bio(bio.summary@)),
        opt_text(r.1) == non_empty(clean_bio(bio.content@)),
{
    let clean_summary = clean_bio_text(bio.summary.as_str());
    let clean_full = clean_bio_text(bio.content.as_str());
    (
        if clean_summary.as_str().is_empty() {
            None
        } else {
            Some(clean_summary)
        },
        if clean_full.as_str().is_empty() {
            None
        } else {
            Some(clean_full)
        },
    )
}

/// Makes what is shown of an artist from what Last.fm says of it.
pub fn convert_lastfm_artist_to_data(info: LastFmArtist) -> (r: LastFmArtistData)
    ensures
        r.name@ == info.name@,
        r.url@ == info.url@,
        opt_text(r.image_url) == image_url_of(info.image@),
        opt_text(r.listeners) == (match info.stats {
            Some(stats) => Some(stats.listeners@),
            None => None,
        }),
        opt_text(r.plays) == (match info.stats {
            Some(stats) => Some(stats.playcount@),
            None => None,
        }),
        texts(r.tags@) == tag_names(info.tags),
        opt_text(r.bio_summary) == (match info.bio {
            Some(bio) => non_empty(clean_bio(bio.summary@)),
            None => None,
        }),
        opt_text(r.bio_full) == (match info.bio {
            Some(bio) => non_empty(clean_bio(bio.content@)),
            None => None,
        }),
{
    let image_url = extract_image_url(info.image.as_slice());
    let (listeners, plays) = match &info.stats {
        Some(stats) => (Some(stats.listeners.clone()), Some(stats.playcount.clone())),
        None => (None, None),
    };
    let tags = extract_tags(info.tags);
    let (bio_summary, bio_full) = match info.bio {
        Some(bio) => process_bio(bio),
        None => (None, None),
    };
    LastFmArtistData {
        name: info.name,
        url: info.url,
        image_url,
        listeners,
        plays,
        tags,
        bio_summary,
        bio_full,
    }
}

/// Whether `data` shows `track` with the preview at `preview`.
pub open spec fn shows_track(data: LastFmTrackData, track: LastFmTrack, preview: Option<String>) -> bool {
    &&& data.name@ == track.name@
    &&& data.url@ == track.url@
    &&& data.playcount@ == track.playcount@
    &&& data.listeners@ == track.listeners@
    &&& opt_text(data.preview_url) == opt_text(preview)
}

/// Pairs each track with the preview found for it; tracks or previews that
/// have no partner are left out.
pub fn combine_tracks_with_previews(tracks: Vec<LastFmTrack>, preview_urls: Vec<Option<String>>) -> (r:
    Vec<LastFmTrackData>)
    ensures
        r@.len() == (if tracks@.len() <= preview_urls@.len() {
            tracks@.len()
        } else {
            preview_urls@.len()
        }),
        forall|i: int|
            0 <= i < r@.len() ==> shows_track(#[trigger] r@[i], tracks@[i], preview_urls@[i]),
{
    let mut combined: Vec<LastFmTrackData> = Vec::new();
    let mut i: usize = 0;
    while i < tracks.len() && i < preview_urls.len()
        invariant
            i <= tracks.len(),
            i <= preview_urls.len(),
            combined@.len() == i,
            forall|j: int|
                0 <= j < i ==> shows_track(#[trigger] combined@[j], tracks@[j], preview_urls@[j]),
        decreases tracks.len() - i,
    {
        let preview_url = match &preview_urls[i] {
            Some(url) => Some(url.clone()),
            None => None,
        };
        combined.push(
            LastFmTrackData {
                name: tracks[i].name.clone(),
                url: tracks[i].url.clone(),
                playcount: tracks[i].playcount.clone(),
                listeners: tracks[i].listeners.clone(),
                preview_url,
            },
        );
        i = i + 1;
    }
    combined
}

/// A copy of an optional string.
pub(crate) fn clone_opt(o: &Option<String>) -> (r: Option<String>)
    ensures
        opt_text(r) == opt_text(*o),
{
    match o {
        Some(text) => Some(text.clone()),
        None => None,
    }
}

/// A copy of a list of strings.
pub(crate) fn clone_texts(v: &Vec<String>) -> (r: Vec<String>)
    ensures
        texts(r@) == texts(v@),
{
    let mut copy: Vec<String> = Vec::new();
    let mut i: usize = 0;
    while i < v.len()
        invariant
            i <= v.len(),
            copy@.len() == i,
            forall|j: int| 0 <= j < i ==> (#[trigger] copy@[j])@ == v@[j]@,
        decreases v.len() - i,
    {
        copy.push(v[i].clone());
        i = i + 1;
    }
    assert(texts(copy@) =~= texts(v@));
    copy
}

/// Whether `data` shows what was kept of an artist, under the name given.
pub open spec fn shows_cached(data: LastFmArtistData, cached: CachedLastFmData, name: Seq<char>) -> bool {
    &&& data.name@ == name
    &&& opt_text(data.image_url) == opt_text(cached.image_url)
    &&& opt_text(data.listeners) == opt_text(cached.listeners)
    &&& opt_text(data.plays) == opt_text(cached.playcount)
    &&& texts(data.tags@) == texts(cached.tags@)
    &&& opt_text(data.bio_summary) == opt_text(cached.bio_summary)
    &&& opt_text(data.bio_full) == opt_text(cached.bio_full)
}

/// Makes what is shown of an artist from what was kept of it. The address
/// is the one that was kept, or the other one where none was.
pub fn convert_cached_lastfm_data(data: &CachedLastFmData, artist_name: &str, fallback_url: &str) -> (r:
    LastFmArtistData)
    ensures
        shows_cached(r, *data, artist_name@),
        r.url@ == (match data.url {
            Some(url) => url@,
            None => fallback_url@,
        }),
{
    LastFmArtistData {
        name: artist_name.to_owned(),
        url: match &data.url {
            Some(url) => url.clone(),
            None => fallback_url.to_owned(),
        },
        image_url: clone_opt(&data.image_url),
        listeners: clone_opt(&data.listeners),
        plays: clone_opt(&data.playcount),
        tags: clone_texts(&data.tags),
        bio_summary: clone_opt(&data.bio_summary),
        bio_full: clone_opt(&data.bio_full),
    }
}

/// Whether `data` shows the track that was kept.
pub open spec fn shows_cached_track(data: LastFmTrackData, track: CachedTrackData) -> bool {
    &&& data.name@ == track.name@
    &&& data.url@ == track.url@
    &&& data.playcount@ == track.playcount@
    &&& data.listeners@ == track.listeners@
    &&& opt_text(data.preview_url) == opt_text(track.preview_url)
}

/// Makes what is shown of the tracks from what was kept of them.
pub fn convert_cached_tracks(tracks: &[CachedTrackData]) -> (r: Vec<LastFmTrackData>)
    ensures
        r@.len() == tracks@.len(),
        forall|i: int| 0 <= i < r@.len() ==> shows_cached_track(#[trigger] r@[i], tracks@[i]),
{
    let mut shown: Vec<LastFmTrackData> = Vec::new();
    let mut i: usize = 0;
    while i < tracks.len()
        invariant
            i <= tracks.len(),
            shown@.len() == i,
            forall|j: int| 0 <= j < i ==> shows_cached_track(#[trigger] shown@[j], tracks@[j]),
        decreases tracks.len() - i,
    {
        shown.push(
            LastFmTrackData {
                name: tracks[i].name.clone(),
                url: tracks[i].url.clone(),
                playcount: tracks[i].playcount.clone(),
                listeners: tracks[i].listeners.clone(),
                preview_url: clone_opt(&tracks[i].preview_url),
            },
        );
        i = i + 1;
    }
    shown
}

/// Answers a question about an artist from what was kept of it.
pub fn build_response_from_cache(
    artist_id: u128,
    artist_name: String,
    artist_url: String,
    cached: &CachedArtistMetadata,
) -> (r: ArtistDetailsResponse)
    ensures
        r.id == artist_id,
        r.name@ == artist_name@,
        r.url@ == artist_url@,
        r.lastfm_data.is_some() == cached.lastfm.is_some(),
        r.lastfm_data.is_some() ==> shows_cached(
            r.lastfm_data.unwrap(),
            cached.lastfm.unwrap(),
            cached.name@,
        ) && r.lastfm_data.unwrap().url@ == (match cached.lastfm.unwrap().url {
            Some(url) => url@,
            None => cached.url@,
        }),
        r.top_tracks.is_some() == cached.tracks.is_some(),
        r.top_tracks.is_some() ==> r.top_tracks.unwrap()@.len() == cached.tracks.unwrap()@.len()
            && forall|i: int|
            0 <= i < cached.tracks.unwrap()@.len() ==> shows_cached_track(
                #[trigger] r.top_tracks.unwrap()@[i],
                cached.tracks.unwrap()@[i],
            ),
{
    let lastfm_data = match &cached.lastfm {
        Some(data) => Some(
            convert_cached_lastfm_data(data, cached.name.as_str(), cached.url.as_str()),
        ),
        None => None,
    };
    let top_tracks = match &cached.tracks {
        Some(tracks) => Some(convert_cached_tracks(tracks.as_slice())),
        None => None,
    };
    ArtistDetailsResponse { id: artist_id, name: artist_name, url: artist_url, lastfm_data, top_tracks }
}

} // verus!
