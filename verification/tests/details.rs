// Small pieces: similarity scores, the queue, cache times, artist details.

use artistpath_core::artist_details::{
    clean_bio_text, combine_tracks_with_previews, convert_lastfm_artist_to_data,
    extract_image_url, extract_tags, process_bio,
};
use artistpath_core::benchmark::BenchmarkResult;
use artistpath_core::cache_types::{
    current_timestamp, is_cache_valid, is_cache_valid_at, to_signed_seconds, CACHE_TTL_SECONDS,
};
use artistpath_core::clock::saturate;
use artistpath_core::exploration::dijkstra::cost_layer;
use artistpath_core::lastfm::{
    LastFmArtist, LastFmBio, LastFmImage, LastFmStats, LastFmTag, LastFmTags, LastFmTrack,
};
use artistpath_core::models::{default_budget, default_limit, default_max_relations};
use artistpath_core::pathfinding::min_queue::{DijkstraNode, MinQueue};
use artistpath_core::pathfinding::profiled_bfs::ProfilingMetrics;
use artistpath_core::similarity::{
    add_cost, edge_cost, similarity_above, similarity_at_least, similarity_fixed,
    similarity_max, similarity_rank, SIMILARITY_ONE, SIMILARITY_ZERO, UNIT_COST,
};
use artistpath_core::PathfindingConfig;

#[test]
fn rank_orders_scores_as_numbers() {
    let scores = [
        f32::NEG_INFINITY,
        -2.5,
        -1.0,
        -f32::MIN_POSITIVE,
        0.0,
        f32::MIN_POSITIVE,
        0.1,
        0.5,
        0.999_999_9,
        1.0,
        1.5,
        f32::MAX,
        f32::INFINITY,
    ];
    for a in scores {
        for b in scores {
            assert_eq!(
                similarity_rank(a.to_bits()) < similarity_rank(b.to_bits()),
                a < b
            );
            assert_eq!(similarity_at_least(a.to_bits(), b.to_bits()), a >= b);
            assert_eq!(similarity_above(a.to_bits(), b.to_bits()), a > b);
        }
        assert!(similarity_rank(f32::NAN.to_bits()) < similarity_rank(a.to_bits()));
    }
    assert_eq!(similarity_rank(0.0f32.to_bits()), 0);
    assert_eq!(similarity_rank((-0.0f32).to_bits()), 0);
    assert_eq!(similarity_rank(SIMILARITY_ONE), 0x3f80_0000);
    assert_eq!(similarity_rank(0xffff_ffff), -0x8000_0000);
    assert_eq!(SIMILARITY_ZERO, 0.0f32.to_bits());
    assert_eq!(SIMILARITY_ONE, 1.0f32.to_bits());
}

#[test]
fn higher_of_two_scores() {
    assert_eq!(similarity_max(0.3f32.to_bits(), 0.7f32.to_bits()), 0.7f32.to_bits());
    assert_eq!(similarity_max(0.7f32.to_bits(), 0.3f32.to_bits()), 0.7f32.to_bits());
    assert_eq!(similarity_max(0.0f32.to_bits(), (-0.0f32).to_bits()), 0.0f32.to_bits());
    assert_eq!(similarity_max((-0.0f32).to_bits(), 0.0f32.to_bits()), (-0.0f32).to_bits());
    assert_eq!(similarity_max(0.1f32.to_bits(), f32::NAN.to_bits()), 0.1f32.to_bits());
    assert_eq!(similarity_max(f32::NAN.to_bits(), 0.1f32.to_bits()), 0.1f32.to_bits());
}

#[test]
fn scores_in_fixed_point() {
    assert_eq!(UNIT_COST, 1u128 << 64);
    assert_eq!(similarity_fixed(1.0f32.to_bits()), 1u128 << 64);
    assert_eq!(similarity_fixed(0.5f32.to_bits()), 1u128 << 63);
    assert_eq!(similarity_fixed(0.25f32.to_bits()), 1u128 << 62);
    assert_eq!(similarity_fixed(0.75f32.to_bits()), 3u128 << 62);
    assert_eq!(similarity_fixed(0.0f32.to_bits()), 0);
    // 0.8 is stored as 13421773 / 2^24.
    assert_eq!(similarity_fixed(0.8f32.to_bits()), 13_421_773u128 << 40);
    // The largest score below one.
    assert_eq!(similarity_fixed(0x3f7f_ffff), ((1u128 << 24) - 1) << 40);
    // 2^-41 is the smallest power of two that is kept whole.
    assert_eq!(similarity_fixed((2.0f32).powi(-41).to_bits()), 1 << 23);
    assert_eq!(similarity_fixed((2.0f32).powi(-64).to_bits()), 1);
    assert_eq!(similarity_fixed((2.0f32).powi(-65).to_bits()), 0);
    assert_eq!(similarity_fixed((1.5f32 * (2.0f32).powi(-64)).to_bits()), 1);
    assert_eq!(similarity_fixed(f32::MIN_POSITIVE.to_bits()), 0);
    assert_eq!(similarity_fixed(1u32), 0);
    // Out of range counts as the nearest end of the range.
    assert_eq!(similarity_fixed(1.5f32.to_bits()), 1u128 << 64);
    assert_eq!(similarity_fixed(f32::INFINITY.to_bits()), 1u128 << 64);
    assert_eq!(similarity_fixed((-0.5f32).to_bits()), 0);
    assert_eq!(similarity_fixed(f32::NAN.to_bits()), 0);
}

#[test]
fn edge_weighs_what_its_score_lacks_to_one() {
    assert_eq!(edge_cost(1.0f32.to_bits()), 0);
    assert_eq!(edge_cost(0.0f32.to_bits()), 1u128 << 64);
    assert_eq!(edge_cost(0.5f32.to_bits()), 1u128 << 63);
    assert_eq!(edge_cost(0.75f32.to_bits()), 1u128 << 62);
    assert_eq!(edge_cost(f32::NAN.to_bits()), 1u128 << 64);
    assert_eq!(edge_cost(2.0f32.to_bits()), 0);
    assert_eq!(add_cost(5, 7), 12);
    assert_eq!(add_cost(u128::MAX - 1, 1), u128::MAX);
    assert_eq!(add_cost(u128::MAX - 1, 2), u128::MAX);
    assert_eq!(add_cost(u128::MAX, u128::MAX), u128::MAX);
}

#[test]
fn layer_is_one_more_than_five_times_the_distance() {
    let unit = 1u128 << 64;
    assert_eq!(cost_layer(0), 1);
    assert_eq!(cost_layer(unit / 5), 1);
    assert_eq!(cost_layer(unit / 5 + 1), 2);
    assert_eq!(cost_layer(unit / 2), 3);
    assert_eq!(cost_layer(unit - 1), 5);
    assert_eq!(cost_layer(unit), 6);
    assert_eq!(cost_layer(3 * unit + unit / 4), 17);
    assert_eq!(cost_layer(u128::MAX), usize::MAX);
}

#[test]
fn queue_hands_out_the_nearest_and_of_equals_the_first() {
    let mut queue = MinQueue::new();
    assert_eq!(queue.len(), 0);
    assert_eq!(queue.pop(), None);
    for (cost, artist) in [(5u128, 1u128), (3, 2), (9, 3), (3, 4), (5, 5), (0, 6), (3, 7)] {
        queue.push(DijkstraNode { cost, artist });
    }
    assert_eq!(queue.len(), 7);
    let mut out = Vec::new();
    while let Some(node) = queue.pop() {
        out.push((node.cost, node.artist));
    }
    assert_eq!(out, vec![(0, 6), (3, 2), (3, 4), (3, 7), (5, 1), (5, 5), (9, 3)]);
    assert_eq!(queue.len(), 0);
}

#[test]
fn cache_is_good_for_ninety_days() {
    assert_eq!(CACHE_TTL_SECONDS, 90 * 24 * 60 * 60);
    assert!(is_cache_valid_at(1_000_000, 1_000_000));
    assert!(is_cache_valid_at(1_000_000 + CACHE_TTL_SECONDS - 1, 1_000_000));
    assert!(!is_cache_valid_at(1_000_000 + CACHE_TTL_SECONDS, 1_000_000));
    assert!(is_cache_valid_at(5, 1_000_000));
    assert!(!is_cache_valid_at(i64::MAX, i64::MIN));
    assert!(is_cache_valid_at(i64::MIN, i64::MAX));
    assert!(!is_cache_valid_at(0, -CACHE_TTL_SECONDS));

    let now = current_timestamp();
    assert!(now > 1_600_000_000);
    assert!(is_cache_valid(now));
    assert!(is_cache_valid(now - CACHE_TTL_SECONDS + 60));
    assert!(!is_cache_valid(now - CACHE_TTL_SECONDS - 60));
    assert!(!is_cache_valid(0));
    assert!(is_cache_valid(i64::MAX));
    assert!(!is_cache_valid(i64::MIN));
    assert_eq!(to_signed_seconds(17), 17);
    assert_eq!(to_signed_seconds(u64::MAX), i64::MAX);
    assert_eq!(saturate(17), 17);
    assert_eq!(saturate(u128::MAX), u64::MAX);
    assert_eq!(saturate(u64::MAX as u128 + 1), u64::MAX);
}

#[test]
fn defaults_of_queries() {
    assert_eq!(default_limit(), 10);
    assert_eq!(default_max_relations(), 80);
    assert_eq!(default_budget(), 100);
    let config = PathfindingConfig::default();
    assert_eq!(f32::from_bits(config.min_match), 0.0);
    assert_eq!(config.top_related, 80);
    assert!(!config.weighted);
    let config = PathfindingConfig::new(0.4f32.to_bits(), 7, true);
    assert_eq!(f32::from_bits(config.min_match), 0.4);
    assert_eq!(config.top_related, 7);
    assert!(config.weighted);
}

fn image(size: &str, url: &str) -> LastFmImage {
    LastFmImage { url: url.to_string(), size: size.to_string() }
}

#[test]
fn image_is_the_first_large_or_medium_one() {
    assert_eq!(
        extract_image_url(&[image("small", "s"), image("medium", "m"), image("large", "l")]),
        Some("m".to_string())
    );
    assert_eq!(
        extract_image_url(&[image("large", "l"), image("medium", "m")]),
        Some("l".to_string())
    );
    assert_eq!(extract_image_url(&[image("small", "s"), image("mega", "x")]), None);
    // An empty address is no address, even where a later picture has one.
    assert_eq!(extract_image_url(&[image("medium", ""), image("large", "l")]), None);
    assert_eq!(extract_image_url(&[image("Large", "l")]), None);
    assert_eq!(extract_image_url(&[]), None);
}

#[test]
fn tags_are_taken_by_name() {
    let tags = LastFmTags {
        tag: vec![
            LastFmTag { name: "pop".to_string(), url: "u1".to_string() },
            LastFmTag { name: "rock".to_string(), url: "u2".to_string() },
        ],
    };
    assert_eq!(extract_tags(Some(tags)), vec!["pop".to_string(), "rock".to_string()]);
    assert_eq!(extract_tags(Some(LastFmTags { tag: vec![] })), Vec::<String>::new());
    assert_eq!(extract_tags(None), Vec::<String>::new());
}

#[test]
fn biography_is_cleaned() {
    assert_eq!(
        clean_bio_text("  She said &quot;hi&quot;.\\nNext line. Read more on Last.fm  "),
        "She said \"hi\".\nNext line."
    );
    assert_eq!(clean_bio_text("Read more on Last.fm"), "");
    assert_eq!(clean_bio_text(""), "");
    let (summary, full) = process_bio(LastFmBio {
        summary: " Read more on Last.fm ".to_string(),
        content: "Long &quot;story&quot;".to_string(),
    });
    assert_eq!(summary, None);
    assert_eq!(full, Some("Long \"story\"".to_string()));
}

#[test]
fn artist_is_made_ready_for_display() {
    let info = LastFmArtist {
        name: "Alice".to_string(),
        mbid: None,
        url: "https://last.fm/alice".to_string(),
        image: vec![image("small", "s"), image("large", "l")],
        stats: Some(LastFmStats { listeners: "12".to_string(), playcount: "345".to_string() }),
        tags: Some(LastFmTags {
            tag: vec![LastFmTag { name: "pop".to_string(), url: "u".to_string() }],
        }),
        bio: Some(LastFmBio { summary: "Short".to_string(), content: " ".to_string() }),
    };
    let data = convert_lastfm_artist_to_data(info);
    assert_eq!(data.name, "Alice");
    assert_eq!(data.url, "https://last.fm/alice");
    assert_eq!(data.image_url, Some("l".to_string()));
    assert_eq!(data.listeners, Some("12".to_string()));
    assert_eq!(data.plays, Some("345".to_string()));
    assert_eq!(data.tags, vec!["pop".to_string()]);
    assert_eq!(data.bio_summary, Some("Short".to_string()));
    assert_eq!(data.bio_full, None);

    let bare = LastFmArtist {
        name: "Bob".to_string(),
        mbid: Some("x".to_string()),
        url: "u".to_string(),
        image: vec![],
        stats: None,
        tags: None,
        bio: None,
    };
    let data = convert_lastfm_artist_to_data(bare);
    assert_eq!(data.image_url, None);
    assert_eq!(data.listeners, None);
    assert_eq!(data.plays, None);
    assert!(data.tags.is_empty());
    assert_eq!(data.bio_summary, None);
    assert_eq!(data.bio_full, None);
}

fn track(name: &str) -> LastFmTrack {
    LastFmTrack {
        name: name.to_string(),
        url: format!("u/{}", name),
        playcount: "1".to_string(),
        listeners: "2".to_string(),
    }
}

#[test]
fn tracks_are_paired_with_their_previews() {
    let combined = combine_tracks_with_previews(
        vec![track("a"), track("b"), track("c")],
        vec![Some("pa".to_string()), None],
    );
    assert_eq!(combined.len(), 2);
    assert_eq!(combined[0].name, "a");
    assert_eq!(combined[0].url, "u/a");
    assert_eq!(combined[0].playcount, "1");
    assert_eq!(combined[0].listeners, "2");
    assert_eq!(combined[0].preview_url, Some("pa".to_string()));
    assert_eq!(combined[1].name, "b");
    assert_eq!(combined[1].preview_url, None);
    assert!(combine_tracks_with_previews(vec![], vec![None]).is_empty());
    assert_eq!(
        combine_tracks_with_previews(vec![track("a")], vec![None, None, None]).len(),
        1
    );
}

#[test]
fn outcome_of_a_measured_search() {
    let mut metrics = ProfilingMetrics::new();
    assert_eq!(metrics.queue_operations, 0);
    assert_eq!(metrics.meeting_point_found_at, None);
    metrics.nodes_explored_forward = 3;
    metrics.nodes_explored_reverse = 4;
    metrics.total_time_ms = 17;
    metrics.hash_lookups = 9;
    let path = vec![(1u128, 0u32), (2, 5)];
    let outcome = BenchmarkResult::from_run("bfs", &metrics, Some(&path), "warm");
    assert_eq!(outcome.algorithm, "bfs");
    assert!(outcome.path_found);
    assert_eq!(outcome.path_length, 2);
    assert_eq!(outcome.nodes_explored, 7);
    assert_eq!(outcome.total_time_ms, 17);
    assert_eq!(outcome.hash_lookups, 9);
    assert_eq!(outcome.cache_state, "warm");
    metrics.nodes_explored_forward = usize::MAX;
    let outcome = BenchmarkResult::from_run("bfs", &metrics, None, "cold");
    assert!(!outcome.path_found);
    assert_eq!(outcome.path_length, 0);
    assert_eq!(outcome.nodes_explored, usize::MAX);
}
