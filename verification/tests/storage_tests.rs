use timeline_filter::store::{FeedContent, IndexStore};
use timeline_filter::timeline_config::{FilterConfig, OAuthConfig, TimelineFeed};

fn record(feed_id: &str, uri: &str, indexed_at: i64) -> FeedContent {
    FeedContent {
        feed_id: feed_id.to_string(),
        uri: uri.to_string(),
        indexed_at,
        score: 1,
        is_repost: false,
        repost_uri: None,
    }
}

#[test]
fn storage_record_feed_content() {
    let mut store = IndexStore::new();
    let rec = record(
        "feed",
        "at://did:plc:qadlgs4xioohnhi2jg54mqds/app.bsky.feed.post/3la3bqjg4hx2n",
        1730673934229172_i64,
    );
    assert!(store.feed_content_upsert(&rec, 1));

    let records = store.feed_content_cached("feed", 5);

    assert_eq!(records.len(), 1);
    assert_eq!(records[0].feed_id, "feed");
    assert_eq!(
        records[0].uri,
        "at://did:plc:qadlgs4xioohnhi2jg54mqds/app.bsky.feed.post/3la3bqjg4hx2n"
    );
    assert_eq!(records[0].indexed_at, 1730673934229172_i64);
}

#[test]
fn consumer_control() {
    let mut store = IndexStore::new();
    store.consumer_control_insert("foo", 1730673934229172_i64, 1);
    assert_eq!(store.consumer_control_get("foo"), Some(1730673934229172_i64));

    store.consumer_control_insert("foo", 1730673934229173_i64, 2);
    assert_eq!(store.consumer_control_get("foo"), Some(1730673934229173_i64));
}

#[test]
fn upsert_is_idempotent() {
    let mut store = IndexStore::new();
    let rec = record("feed", "at://did:plc:a/app.bsky.feed.post/1", 100);
    assert!(store.feed_content_upsert(&rec, 10));
    assert!(!store.feed_content_upsert(&rec, 20));
    assert!(!store.feed_content_upsert(&rec, 30));
    let rows = store.feed_content_cached("feed", 10);
    assert_eq!(rows.len(), 1);
    assert_eq!(rows[0].score, 1);
    assert_eq!(rows[0].indexed_at, 100);
}

#[test]
fn update_never_creates() {
    let mut store = IndexStore::new();
    let rec = record("feed", "at://did:plc:a/app.bsky.feed.post/1", 100);
    store.feed_content_update(&rec, 10);
    assert_eq!(store.feed_content_cached("feed", 10).len(), 0);

    assert!(store.feed_content_upsert(&rec, 10));
    store.feed_content_update(&rec, 20);
    let rows = store.feed_content_cached("feed", 10);
    assert_eq!(rows.len(), 1);
    assert_eq!(rows[0].score, 2);
}

#[test]
fn truncate_is_idempotent() {
    let mut store = IndexStore::new();
    store.feed_content_upsert(&record("feed", "at://a/p/1", 100), 10);
    store.feed_content_upsert(&record("feed", "at://a/p/2", 200), 30);
    store.feed_content_truncate_oldest(20);
    assert_eq!(store.feed_content_cached("feed", 10).len(), 1);
    store.feed_content_truncate_oldest(20);
    let rows = store.feed_content_cached("feed", 10);
    assert_eq!(rows.len(), 1);
    assert_eq!(rows[0].uri, "at://a/p/2");
}

#[test]
fn upserts_of_different_keys_commute() {
    let a = record("feed", "at://a/p/1", 100);
    let b = record("feed", "at://a/p/2", 200);

    let mut s1 = IndexStore::new();
    s1.feed_content_upsert(&a, 10);
    s1.feed_content_upsert(&b, 20);

    let mut s2 = IndexStore::new();
    s2.feed_content_upsert(&b, 20);
    s2.feed_content_upsert(&a, 10);

    let r1 = s1.feed_content_cached("feed", 10);
    let r2 = s2.feed_content_cached("feed", 10);
    assert_eq!(r1.len(), 2);
    assert_eq!(r2.len(), 2);
    for (x, y) in r1.iter().zip(r2.iter()) {
        assert_eq!(x.uri, y.uri);
        assert_eq!(x.indexed_at, y.indexed_at);
        assert_eq!(x.score, y.score);
    }
}

#[test]
fn purge_removes_by_uri_and_scope() {
    let mut store = IndexStore::new();
    store.feed_content_upsert(&record("f1", "at://a/p/1", 100), 10);
    store.feed_content_upsert(&record("f2", "at://a/p/1", 100), 10);
    store.feed_content_upsert(&record("f1", "at://a/p/2", 200), 10);

    store.feed_content_purge_aturi("at://a/p/1", &Some("f1".to_string()));
    assert_eq!(store.feed_content_cached("f1", 10).len(), 1);
    assert_eq!(store.feed_content_cached("f2", 10).len(), 1);

    store.feed_content_purge_aturi("at://a/p/1", &None);
    assert_eq!(store.feed_content_cached("f2", 10).len(), 0);
}

#[test]
fn denylist_membership() {
    let mut store = IndexStore::new();
    store.denylist_upsert("did:plc:bad", "spam", 1);
    assert!(store.denylist_exists(&vec!["did:plc:bad".to_string()]));
    assert!(!store.denylist_exists(&vec!["did:plc:good".to_string()]));
    assert!(store.denylist_exists(&vec![
        "did:plc:good".to_string(),
        "did:plc:bad".to_string()
    ]));
    store.denylist_remove("did:plc:bad");
    assert!(!store.denylist_exists(&vec!["did:plc:bad".to_string()]));
}

fn test_feed(did: &str) -> TimelineFeed {
    TimelineFeed {
        did: did.to_string(),
        feed_uri: "at://did:plc:feedgen/app.bsky.feed.generator/test".to_string(),
        name: "Test Feed".to_string(),
        description: "A test feed".to_string(),
        oauth: OAuthConfig {
            access_token: "test_token".to_string(),
            refresh_token: Some("refresh_token".to_string()),
            expires_at: Some("2099-12-31T23:59:59Z".to_string()),
            pds_url: "https://bsky.social".to_string(),
        },
        filters: FilterConfig { blocked_reposters: Vec::new() },
        poll_interval: Some("30s".to_string()),
        max_posts_per_poll: 50,
        backfill_limit: Some(500),
    }
}

#[test]
fn test_sync_user_config() {
    let mut store = IndexStore::new();
    let feed = test_feed("did:plc:test123");

    store.sync_user_config(&feed);

    let loaded = store.get_user_config("did:plc:test123");
    assert!(loaded.is_some());
    let loaded = loaded.unwrap();
    assert_eq!(loaded.did, "did:plc:test123");
    assert_eq!(loaded.access_token, "test_token");
    assert_eq!(loaded.poll_interval_seconds, 30);
}

#[test]
fn test_sync_user_filters() {
    let mut store = IndexStore::new();
    let feed = test_feed("did:plc:test123");
    store.sync_user_config(&feed);

    let filters = FilterConfig {
        blocked_reposters: vec![
            "did:plc:blocked1".to_string(),
            "did:plc:blocked2".to_string(),
        ],
    };
    store.sync_user_filters("did:plc:test123", &filters, 1);

    let loaded = store.get_user_filters("did:plc:test123");
    assert_eq!(loaded.blocked_reposters.len(), 2);
    assert!(loaded
        .blocked_reposters
        .contains(&"did:plc:blocked1".to_string()));
}

#[test]
fn test_poll_state() {
    let mut store = IndexStore::new();
    let feed = test_feed("did:plc:test123");
    store.sync_user_config(&feed);

    let now = 1_700_000_000_000_000_i64;
    let thirty_seconds = 30_000_000_i64;

    let should = store.should_poll("did:plc:test123", thirty_seconds, now);
    assert!(should);

    store.update_poll_state("did:plc:test123", 10, 0, now);
    store.update_poll_state_backfill("did:plc:test123", Some("cursor123".to_string()), 0, now);

    let should = store.should_poll("did:plc:test123", thirty_seconds, now);
    assert!(!should);

    assert_eq!(store.get_cursor("did:plc:test123"), Some("cursor123".to_string()));

    let stats = store.get_poll_stats("did:plc:test123");
    assert!(stats.is_some());
    let stats = stats.unwrap();
    assert_eq!(stats.posts_indexed, 10);
    assert_eq!(stats.total_posts_indexed, 10);
}

#[test]
fn dual_tracks_do_not_clobber_each_other() {
    let mut store = IndexStore::new();
    let now = 1_700_000_000_000_000_i64;

    // A fresh poll never saves a cursor.
    store.update_poll_state_backfill("did:plc:u", Some("c1".to_string()), 3, now);
    store.update_poll_state("did:plc:u", 5, 0, now + 1);
    assert_eq!(store.get_cursor("did:plc:u"), Some("c1".to_string()));

    // A backfill poll never touches the fresh due-time.
    assert!(!store.should_poll("did:plc:u", 30_000_000, now + 2));
    store.update_poll_state_backfill("did:plc:u", Some("c2".to_string()), 2, now + 2);
    assert!(!store.should_poll("did:plc:u", 30_000_000, now + 2));
    assert_eq!(store.get_cursor("did:plc:u"), Some("c2".to_string()));
}

#[test]
fn backfill_stops_at_the_cap_or_a_missing_cursor() {
    let mut store = IndexStore::new();
    let now = 1_700_000_000_000_000_i64;

    assert!(store.needs_backfill("did:plc:u", Some(500)));
    store.update_poll_state_backfill("did:plc:u", Some("c".to_string()), 499, now);
    assert!(store.needs_backfill("did:plc:u", Some(500)));
    store.update_poll_state_backfill("did:plc:u", Some("c".to_string()), 1, now);
    assert!(!store.needs_backfill("did:plc:u", Some(500)));
    assert!(store.needs_backfill("did:plc:u", None));

    store.update_poll_state_backfill("did:plc:u", None, 0, now);
    assert!(!store.needs_backfill("did:plc:u", None));
}
