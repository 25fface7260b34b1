use fnv_rs::FnvHasher;
use timeline_filter::cache::{age_in_hours, chunk_pages, snapshot_file_name, sort_ranked_desc, InnerCache, RankedPost};
use timeline_filter::config::{CertificateBundles, HttpPort, TaskEnable, TaskInterval};
use timeline_filter::service::{
    admin_action_of, apply_admin_action, describe_feed_generator, handle_get_feed_skeleton,
    u32_to_dec, well_known_doc, AdminForm, FeedParams,
};
use timeline_filter::store::{FeedContent, IndexStore};

#[test]
fn cache_record_feed_content() {
    let sorted_posts: Vec<String> = (0..12)
        .map(|value| format!("at://did:not:real/post/{}", value))
        .collect();

    let mut cache = InnerCache::new(5);
    cache.update_feed("feed", &sorted_posts);

    assert_eq!(
        cache.get_posts("feed", 0),
        Some(
            (0..5)
                .map(|value| format!("at://did:not:real/post/{}", value))
                .collect()
        )
    );
    assert_eq!(
        cache.get_posts("feed", 1),
        Some(
            (5..10)
                .map(|value| format!("at://did:not:real/post/{}", value))
                .collect()
        )
    );
    assert_eq!(
        cache.get_posts("feed", 2),
        Some(
            (10..12)
                .map(|value| format!("at://did:not:real/post/{}", value))
                .collect()
        )
    );
    assert_eq!(cache.get_posts("feed", 3), None);
}

#[test]
fn pages_concatenate_back_to_the_list() {
    let posts: Vec<String> = (0..7).map(|v| format!("p{}", v)).collect();
    let chunks = chunk_pages(&posts, 3);
    assert_eq!(chunks.len(), 3);
    assert_eq!(chunks[0].len(), 3);
    assert_eq!(chunks[1].len(), 3);
    assert_eq!(chunks[2].len(), 1);
    let rebuilt: Vec<String> = chunks.into_iter().flatten().collect();
    assert_eq!(rebuilt, posts);

    let empty: Vec<String> = Vec::new();
    assert_eq!(chunk_pages(&empty, 3).len(), 0);
}

#[test]
fn popular_scoring_orders_by_gravity() {
    // Two rows: score 11 written now, score 6 written two hours ago.
    let now_s = 1_700_000_000_i64;
    let age_a = age_in_hours(now_s * 1_000_000, now_s);
    let age_b = age_in_hours((now_s - 7200) * 1_000_000, now_s);
    assert_eq!(age_a, 1);
    assert_eq!(age_b, 3);

    let gravity = 1.8_f64;
    let score_a = ((11 - 1).max(0) as f64) / ((2 + age_a) as f64).powf(gravity);
    let score_b = ((6 - 1).max(0) as f64) / ((2 + age_b) as f64).powf(gravity);

    let items = vec![
        RankedPost { key: score_b.to_bits(), uri: "b".to_string() },
        RankedPost { key: score_a.to_bits(), uri: "a".to_string() },
    ];
    let sorted = sort_ranked_desc(items);
    assert_eq!(sorted[0].uri, "a");
    assert_eq!(sorted[1].uri, "b");
}

#[test]
fn age_is_clamped_to_one_hour() {
    assert_eq!(age_in_hours(2_000_000_000_000_000, 1_000_000_000), 1);
    assert_eq!(age_in_hours(0, 3600), 2);
}

#[test]
fn snapshot_names_use_the_digest() {
    let name = snapshot_file_name("at://feed/one");
    assert_ne!(name, "at://feed/one.json");
    let expected = format!("{}.json", fnv_rs::Fnv64::hash("at://feed/one".as_bytes()));
    assert_eq!(name, expected);
}

#[test]
fn numbers_print_in_decimal() {
    assert_eq!(u32_to_dec(0), "0");
    assert_eq!(u32_to_dec(7), "7");
    assert_eq!(u32_to_dec(120), "120");
    assert_eq!(u32_to_dec(4294967295), "4294967295");
}

fn timeline_row(uri: &str, indexed_at: i64, repost_uri: Option<&str>) -> FeedContent {
    FeedContent {
        feed_id: "at://tl/feed".to_string(),
        uri: uri.to_string(),
        indexed_at,
        score: 1,
        is_repost: repost_uri.is_some(),
        repost_uri: repost_uri.map(|s| s.to_string()),
    }
}

#[test]
fn timeline_skeleton_pages_newest_first() {
    let mut store = IndexStore::new();
    store.feed_content_upsert(&timeline_row("at://a/p/1", 100, None), 1);
    store.feed_content_upsert(&timeline_row("at://a/p/2", 300, Some("at://r/x/1")), 1);
    store.feed_content_upsert(&timeline_row("at://a/p/3", 200, None), 1);
    let cache = InnerCache::new(20);

    let params = FeedParams {
        feed: Some("at://tl/feed".to_string()),
        limit: Some(2),
        cursor: None,
    };
    let view = handle_get_feed_skeleton(&store, &cache, &params).unwrap();
    assert_eq!(view.feed.len(), 2);
    assert_eq!(view.feed[0].post, "at://a/p/2");
    assert!(view.feed[0].reason.is_some());
    assert_eq!(view.feed[0].reason.as_ref().unwrap().repost, "at://r/x/1");
    assert_eq!(view.feed[1].post, "at://a/p/3");
    assert!(view.feed[1].reason.is_none());
    assert_eq!(view.cursor, Some("2".to_string()));

    let params2 = FeedParams {
        feed: Some("at://tl/feed".to_string()),
        limit: Some(2),
        cursor: Some("2".to_string()),
    };
    let view2 = handle_get_feed_skeleton(&store, &cache, &params2).unwrap();
    assert_eq!(view2.feed.len(), 1);
    assert_eq!(view2.feed[0].post, "at://a/p/1");
    assert_eq!(view2.cursor, Some("3".to_string()));

    let missing = FeedParams { feed: None, limit: None, cursor: None };
    assert!(handle_get_feed_skeleton(&store, &cache, &missing).is_err());
}

#[test]
fn ranked_skeleton_pages_come_from_the_cache() {
    let store = IndexStore::new();
    let mut cache = InnerCache::new(2);
    let posts: Vec<String> = (0..3).map(|v| format!("at://ranked/p/{}", v)).collect();
    cache.update_feed("at://ranked/feed", &posts);

    let page0 = handle_get_feed_skeleton(
        &store,
        &cache,
        &FeedParams { feed: Some("at://ranked/feed".to_string()), limit: None, cursor: None },
    )
    .unwrap();
    assert_eq!(page0.feed.len(), 2);
    assert_eq!(page0.feed[0].post, "at://ranked/p/0");
    assert_eq!(page0.cursor, Some("1".to_string()));

    let page1 = handle_get_feed_skeleton(
        &store,
        &cache,
        &FeedParams {
            feed: Some("at://ranked/feed".to_string()),
            limit: None,
            cursor: Some("1".to_string()),
        },
    )
    .unwrap();
    assert_eq!(page1.feed.len(), 1);
    assert_eq!(page1.cursor, None);

    let past = handle_get_feed_skeleton(
        &store,
        &cache,
        &FeedParams {
            feed: Some("at://ranked/feed".to_string()),
            limit: None,
            cursor: Some("9".to_string()),
        },
    )
    .unwrap();
    assert_eq!(past.feed.len(), 0);
    assert_eq!(past.cursor, None);
}

#[test]
fn describe_lists_every_feed() {
    let mut store = IndexStore::new();
    let feed = timeline_filter::timeline_config::TimelineFeed {
        did: "did:plc:u".to_string(),
        feed_uri: "at://tl/feed".to_string(),
        name: "n".to_string(),
        description: "d".to_string(),
        oauth: timeline_filter::timeline_config::OAuthConfig {
            access_token: "t".to_string(),
            refresh_token: None,
            expires_at: None,
            pds_url: "https://bsky.social".to_string(),
        },
        filters: timeline_filter::timeline_config::FilterConfig { blocked_reposters: Vec::new() },
        poll_interval: None,
        max_posts_per_poll: 50,
        backfill_limit: Some(500),
    };
    store.sync_user_config(&feed);
    let ranked = vec!["at://ranked/feed".to_string()];
    let view = describe_feed_generator("https://feeds.example.com/", &ranked, &store);
    assert_eq!(view.did, "did:web:feeds.example.com");
    assert_eq!(view.feeds, vec!["at://ranked/feed".to_string(), "at://tl/feed".to_string()]);
}

#[test]
fn well_known_advertises_the_endpoint() {
    let view = well_known_doc("https://feeds.example.com");
    assert_eq!(view.id, "did:web:feeds.example.com");
    assert_eq!(view.service_endpoint, "https://feeds.example.com");

    let bare = well_known_doc("feeds.example.com");
    assert_eq!(bare.id, "did:web:feeds.example.com");
    assert_eq!(bare.service_endpoint, "https://feeds.example.com");
}

#[test]
fn admin_actions_drive_the_index() {
    let mut store = IndexStore::new();
    store.feed_content_upsert(&timeline_row("at://a/p/1", 100, None), 1);

    let deny = admin_action_of(&AdminForm {
        action: Some("deny".to_string()),
        did: Some("did:plc:bad".to_string()),
        reason: None,
        aturi: None,
        feed: None,
    })
    .unwrap();
    apply_admin_action(&mut store, deny, 5);
    assert!(store.denylist_exists(&vec!["did:plc:bad".to_string()]));

    let allow = admin_action_of(&AdminForm {
        action: Some("allow".to_string()),
        did: Some("did:plc:bad".to_string()),
        reason: None,
        aturi: None,
        feed: None,
    })
    .unwrap();
    apply_admin_action(&mut store, allow, 6);
    assert!(!store.denylist_exists(&vec!["did:plc:bad".to_string()]));

    let purge = admin_action_of(&AdminForm {
        action: Some("purge".to_string()),
        did: None,
        reason: None,
        aturi: Some("at://a/p/1".to_string()),
        feed: Some("".to_string()),
    })
    .unwrap();
    apply_admin_action(&mut store, purge, 7);
    assert_eq!(store.feed_content_cached("at://tl/feed", 10).len(), 0);

    assert!(admin_action_of(&AdminForm {
        action: Some("unknown".to_string()),
        did: None,
        reason: None,
        aturi: None,
        feed: None,
    })
    .is_none());
}

#[test]
fn settings_parse_like_the_environment_expects() {
    assert_eq!(HttpPort::parse("").unwrap().0, 80);
    assert_eq!(HttpPort::parse("4050").unwrap().0, 4050);
    assert!(HttpPort::parse("not-a-port").is_err());
    assert!(HttpPort::parse("70000").is_err());

    assert!(TaskEnable::parse("true").unwrap().0);
    assert!(!TaskEnable::parse("false").unwrap().0);
    assert!(TaskEnable::parse("yes").is_err());

    assert_eq!(TaskInterval::parse("30s").unwrap().0, 30);
    assert_eq!(TaskInterval::parse("1h").unwrap().0, 3600);
    assert_eq!(TaskInterval::parse("48h").unwrap().0, 172800);
    assert!(TaskInterval::parse("soon").is_err());

    let bundles = CertificateBundles::parse("a.pem;;b.pem;");
    assert_eq!(bundles.0, vec!["a.pem".to_string(), "b.pem".to_string()]);
    assert_eq!(CertificateBundles::parse("").0.len(), 0);

    assert_eq!(timeline_filter::config::version(), "0.1.0");
}
