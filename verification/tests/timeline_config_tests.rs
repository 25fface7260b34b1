use timeline_filter::timeline_config::{FilterConfig, OAuthConfig, TimelineFeed};

fn base_oauth() -> OAuthConfig {
    OAuthConfig {
        access_token: "test_token".to_string(),
        refresh_token: None,
        expires_at: None,
        pds_url: "https://bsky.social".to_string(),
    }
}

#[test]
fn test_valid_timeline_feed() {
    let feed = TimelineFeed {
        did: "did:plc:test123".to_string(),
        feed_uri: "at://did:plc:feedgen/app.bsky.feed.generator/test".to_string(),
        name: "Test Feed".to_string(),
        description: "A test feed".to_string(),
        oauth: base_oauth(),
        filters: FilterConfig { blocked_reposters: Vec::new() },
        poll_interval: Some("30s".to_string()),
        max_posts_per_poll: 50,
        backfill_limit: Some(500),
    };

    assert!(feed.validate().is_ok());
}

#[test]
fn test_invalid_did() {
    let feed = TimelineFeed {
        did: "invalid".to_string(),
        feed_uri: "at://did:plc:feedgen/app.bsky.feed.generator/test".to_string(),
        name: "Test Feed".to_string(),
        description: "A test feed".to_string(),
        oauth: base_oauth(),
        filters: FilterConfig { blocked_reposters: Vec::new() },
        poll_interval: None,
        max_posts_per_poll: 50,
        backfill_limit: Some(500),
    };

    assert!(feed.validate().is_err());
}

#[test]
fn test_poll_interval_duration() {
    let feed = TimelineFeed {
        did: "did:plc:test123".to_string(),
        feed_uri: "at://did:plc:feedgen/app.bsky.feed.generator/test".to_string(),
        name: "Test Feed".to_string(),
        description: "A test feed".to_string(),
        oauth: base_oauth(),
        filters: FilterConfig { blocked_reposters: Vec::new() },
        poll_interval: Some("30s".to_string()),
        backfill_limit: Some(500),
        max_posts_per_poll: 50,
    };

    let duration = feed.poll_interval_duration();
    assert!(duration.is_some());
    assert_eq!(duration.unwrap(), 30);
}

#[test]
fn test_filter_config() {
    let mut filters = FilterConfig { blocked_reposters: Vec::new() };
    filters.blocked_reposters.push("did:plc:blocked1".to_string());
    filters.blocked_reposters.push("did:plc:blocked2".to_string());

    assert!(filters.is_reposter_blocked("did:plc:blocked1"));
    assert!(!filters.is_reposter_blocked("did:plc:notblocked"));
}

#[test]
fn test_oauth_expiration() {
    let oauth = OAuthConfig {
        access_token: "test".to_string(),
        refresh_token: None,
        expires_at: Some("2099-12-31T23:59:59Z".to_string()),
        pds_url: "https://bsky.social".to_string(),
    };
    assert!(!oauth.is_expired());

    let oauth_expired = OAuthConfig {
        access_token: "test".to_string(),
        refresh_token: None,
        expires_at: Some("2020-01-01T00:00:00Z".to_string()),
        pds_url: "https://bsky.social".to_string(),
    };
    assert!(oauth_expired.is_expired());
}

#[test]
fn test_backfill_limit_validation_with_cleanup_age() {
    let feed_good = TimelineFeed {
        did: "did:plc:test123".to_string(),
        feed_uri: "at://did:plc:feedgen/app.bsky.feed.generator/test".to_string(),
        name: "Test Feed".to_string(),
        description: "A test feed".to_string(),
        oauth: base_oauth(),
        filters: FilterConfig { blocked_reposters: Vec::new() },
        poll_interval: None,
        max_posts_per_poll: 50,
        backfill_limit: Some(1000),
    };
    let cleanup_age_48h = Some(48i64);
    assert!(feed_good.validate_with_cleanup_age(cleanup_age_48h).is_ok());

    let feed_excessive = TimelineFeed {
        did: "did:plc:test456".to_string(),
        feed_uri: "at://did:plc:feedgen/app.bsky.feed.generator/test2".to_string(),
        name: "Test Feed 2".to_string(),
        description: "A test feed with excessive backfill".to_string(),
        oauth: base_oauth(),
        filters: FilterConfig { blocked_reposters: Vec::new() },
        poll_interval: None,
        max_posts_per_poll: 50,
        backfill_limit: Some(10000),
    };
    assert!(feed_excessive.validate_with_cleanup_age(cleanup_age_48h).is_ok());

    let feed_unlimited = TimelineFeed {
        did: "did:plc:test789".to_string(),
        feed_uri: "at://did:plc:feedgen/app.bsky.feed.generator/test3".to_string(),
        name: "Test Feed 3".to_string(),
        description: "A test feed with unlimited backfill".to_string(),
        oauth: base_oauth(),
        filters: FilterConfig { blocked_reposters: Vec::new() },
        poll_interval: None,
        max_posts_per_poll: 50,
        backfill_limit: None,
    };
    assert!(feed_unlimited.validate_with_cleanup_age(cleanup_age_48h).is_ok());

    let feed_7d = TimelineFeed {
        did: "did:plc:test999".to_string(),
        feed_uri: "at://did:plc:feedgen/app.bsky.feed.generator/test4".to_string(),
        name: "Test Feed 4".to_string(),
        description: "A test feed with 7 day cleanup".to_string(),
        oauth: base_oauth(),
        filters: FilterConfig { blocked_reposters: Vec::new() },
        poll_interval: None,
        max_posts_per_poll: 50,
        backfill_limit: Some(3500),
    };
    let cleanup_age_7d = Some(168i64);
    assert!(feed_7d.validate_with_cleanup_age(cleanup_age_7d).is_ok());
}

#[test]
fn zero_max_posts_is_rejected() {
    let feed = TimelineFeed {
        did: "did:plc:test123".to_string(),
        feed_uri: "at://did:plc:feedgen/app.bsky.feed.generator/test".to_string(),
        name: "Test Feed".to_string(),
        description: "A test feed".to_string(),
        oauth: base_oauth(),
        filters: FilterConfig { blocked_reposters: Vec::new() },
        poll_interval: None,
        max_posts_per_poll: 0,
        backfill_limit: Some(500),
    };
    assert!(feed.validate().is_err());
}

#[test]
fn zero_backfill_limit_is_rejected() {
    let feed = TimelineFeed {
        did: "did:plc:test123".to_string(),
        feed_uri: "at://did:plc:feedgen/app.bsky.feed.generator/test".to_string(),
        name: "Test Feed".to_string(),
        description: "A test feed".to_string(),
        oauth: base_oauth(),
        filters: FilterConfig { blocked_reposters: Vec::new() },
        poll_interval: None,
        max_posts_per_poll: 50,
        backfill_limit: Some(0),
    };
    assert!(feed.validate().is_err());
}

#[test]
fn blank_access_token_is_rejected() {
    let mut oauth = base_oauth();
    oauth.access_token = "   ".to_string();
    assert!(oauth.validate().is_err());
}

#[test]
fn bad_expires_at_is_rejected() {
    let mut oauth = base_oauth();
    oauth.expires_at = Some("not a timestamp".to_string());
    assert!(oauth.validate().is_err());
}

#[test]
fn invalid_blocked_reposter_is_rejected() {
    let filters = FilterConfig { blocked_reposters: vec!["not-a-did".to_string()] };
    assert!(filters.validate().is_err());
}

#[test]
fn defaults_match_the_documented_values() {
    assert_eq!(timeline_filter::timeline_config::default_max_posts(), 50);
    assert_eq!(timeline_filter::timeline_config::default_backfill_limit(), Some(500));
}

#[test]
fn feeds_look_up_by_did_and_uri() {
    let mk = |did: &str, uri: &str| TimelineFeed {
        did: did.to_string(),
        feed_uri: uri.to_string(),
        name: "n".to_string(),
        description: "d".to_string(),
        oauth: base_oauth(),
        filters: FilterConfig { blocked_reposters: Vec::new() },
        poll_interval: None,
        max_posts_per_poll: 50,
        backfill_limit: Some(500),
    };
    let feeds = timeline_filter::timeline_config::TimelineFeeds {
        timeline_feeds: vec![
            mk("did:plc:one", "at://one/feed"),
            mk("did:plc:two", "at://two/feed"),
        ],
    };
    assert!(!feeds.is_empty());
    assert_eq!(feeds.len(), 2);
    assert_eq!(feeds.get_by_did("did:plc:two").unwrap().feed_uri, "at://two/feed");
    assert!(feeds.get_by_did("did:plc:three").is_none());
    assert_eq!(feeds.get_by_feed_uri("at://one/feed").unwrap().did, "did:plc:one");
    assert!(feeds.get_by_feed_uri("at://nine/feed").is_none());
    assert!(feeds.validate_all(None).is_ok());
}
