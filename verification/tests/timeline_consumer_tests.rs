use timeline_filter::json::JsonValue;
use timeline_filter::store::IndexStore;
use timeline_filter::timeline_config::{FilterConfig, OAuthConfig};
use timeline_filter::timeline_consumer::{
    apply_refresh_session, extract_pds_endpoint, filter_posts, index_timeline_page,
    parse_indexed_at, plan_post_index, token_needs_refresh, FeedViewPost, PostView,
    ProfileViewBasic, ReasonRepost, RefreshSession,
};

fn profile(did: &str, handle: &str) -> ProfileViewBasic {
    ProfileViewBasic {
        did: did.to_string(),
        handle: Some(handle.to_string()),
        display_name: None,
        avatar: None,
    }
}

fn plain_post(uri: &str, cid: &str, author_did: &str, handle: &str, text: &str) -> PostView {
    PostView {
        uri: uri.to_string(),
        cid: Some(cid.to_string()),
        author: Some(profile(author_did, handle)),
        record: Some(JsonValue::Obj(vec![(
            "text".to_string(),
            JsonValue::Str(text.to_string()),
        )])),
        indexed_at: Some("2025-10-17T00:00:00Z".to_string()),
    }
}

fn sample_posts() -> Vec<FeedViewPost> {
    vec![
        FeedViewPost {
            post: plain_post(
                "at://did:plc:author1/post/1",
                "cid1",
                "did:plc:author1",
                "author1.bsky.social",
                "Hello",
            ),
            reason: None,
            reply: None,
        },
        FeedViewPost {
            post: plain_post(
                "at://did:plc:author2/post/2",
                "cid2",
                "did:plc:author2",
                "author2.bsky.social",
                "World",
            ),
            reason: Some(ReasonRepost {
                reason_type: "app.bsky.feed.defs#reasonRepost".to_string(),
                by: profile("did:plc:blocked", "blocked.bsky.social"),
                uri: Some("at://did:plc:blocked/app.bsky.feed.repost/xyz".to_string()),
                cid: Some("repost_cid".to_string()),
                indexed_at: "2025-10-17T00:00:00Z".to_string(),
            }),
            reply: None,
        },
        FeedViewPost {
            post: plain_post(
                "at://did:plc:author3/post/3",
                "cid3",
                "did:plc:author3",
                "author3.bsky.social",
                "Test",
            ),
            reason: Some(ReasonRepost {
                reason_type: "app.bsky.feed.defs#reasonRepost".to_string(),
                by: profile("did:plc:allowed", "allowed.bsky.social"),
                uri: Some("at://did:plc:allowed/app.bsky.feed.repost/abc".to_string()),
                cid: Some("repost_cid2".to_string()),
                indexed_at: "2025-10-17T00:00:00Z".to_string(),
            }),
            reply: None,
        },
    ]
}

#[test]
fn test_parse_indexed_at() {
    let timestamp = "2025-10-17T00:22:35.123Z";
    let result = parse_indexed_at(timestamp);
    assert!(result.is_ok());
    let micros = result.unwrap();
    assert!(micros > 0);
}

#[test]
fn test_filter_posts() {
    let filters = FilterConfig { blocked_reposters: vec!["did:plc:blocked".to_string()] };
    let posts = sample_posts();

    let filtered = filter_posts(&posts, &filters);

    assert_eq!(filtered.len(), 2);
    assert_eq!(filtered[0].post.uri, "at://did:plc:author1/post/1");
    assert_eq!(filtered[1].post.uri, "at://did:plc:author3/post/3");
}

#[test]
fn timeline_repost_filter_indexes_two_rows() {
    let mut store = IndexStore::new();
    let filters = FilterConfig { blocked_reposters: vec!["did:plc:blocked".to_string()] };
    let posts = sample_posts();

    let (new_posts, dupes, blocked) =
        index_timeline_page(&mut store, "at://tl/feed", &posts, &filters, 9);
    assert_eq!(new_posts, 2);
    assert_eq!(dupes, 0);
    assert_eq!(blocked, 1);

    let rows = store.feed_content_cached("at://tl/feed", 10);
    assert_eq!(rows.len(), 2);
    let repost_row = rows
        .iter()
        .find(|r| r.uri == "at://did:plc:author3/post/3")
        .unwrap();
    assert!(repost_row.is_repost);
    assert_eq!(
        repost_row.repost_uri,
        Some("at://did:plc:allowed/app.bsky.feed.repost/abc".to_string())
    );
    let plain_row = rows
        .iter()
        .find(|r| r.uri == "at://did:plc:author1/post/1")
        .unwrap();
    assert!(!plain_row.is_repost);
    assert_eq!(plain_row.repost_uri, None);
}

#[test]
fn posts_without_author_or_time_are_skipped() {
    let mut no_author = sample_posts().remove(0);
    no_author.post.author = None;
    assert!(plan_post_index(&no_author).is_none());

    let mut no_time = sample_posts().remove(0);
    no_time.post.indexed_at = None;
    assert!(plan_post_index(&no_time).is_none());

    let planned = plan_post_index(&sample_posts().remove(0)).unwrap();
    assert_eq!(planned.uri, "at://did:plc:author1/post/1");
    assert!(!planned.is_repost);
    assert_eq!(planned.indexed_at, parse_indexed_at("2025-10-17T00:00:00Z").unwrap());
}

#[test]
fn token_refresh_decision_follows_the_expiry() {
    let now = parse_indexed_at("2025-01-01T00:00:00Z").unwrap();
    let fresh = OAuthConfig {
        access_token: "t".to_string(),
        refresh_token: None,
        expires_at: Some("2025-01-01T06:00:00Z".to_string()),
        pds_url: "https://bsky.social".to_string(),
    };
    assert_eq!(token_needs_refresh(&fresh, now).unwrap(), false);

    let expiring = OAuthConfig {
        access_token: "t".to_string(),
        refresh_token: None,
        expires_at: Some("2025-01-01T00:03:00Z".to_string()),
        pds_url: "https://bsky.social".to_string(),
    };
    assert_eq!(token_needs_refresh(&expiring, now).unwrap(), true);

    let no_expiry_with_refresh = OAuthConfig {
        access_token: "t".to_string(),
        refresh_token: Some("r".to_string()),
        expires_at: None,
        pds_url: "https://bsky.social".to_string(),
    };
    assert_eq!(token_needs_refresh(&no_expiry_with_refresh, now).unwrap(), true);

    let unreadable = OAuthConfig {
        access_token: "t".to_string(),
        refresh_token: None,
        expires_at: Some("garbage".to_string()),
        pds_url: "https://bsky.social".to_string(),
    };
    assert!(token_needs_refresh(&unreadable, now).is_err());
}

#[test]
fn refresh_refuses_a_mismatched_did() {
    let oauth = OAuthConfig {
        access_token: "old".to_string(),
        refresh_token: Some("r".to_string()),
        expires_at: None,
        pds_url: "https://bsky.social".to_string(),
    };
    let session = RefreshSession {
        access_jwt: "new_access".to_string(),
        refresh_jwt: "new_refresh".to_string(),
        did: "did:plc:someone-else".to_string(),
        handle: "user.bsky.social".to_string(),
        did_doc: None,
    };
    assert!(apply_refresh_session(&oauth, "did:plc:me", &session, 0).is_err());
}

#[test]
fn refresh_adopts_tokens_and_the_advertised_pds() {
    let oauth = OAuthConfig {
        access_token: "old".to_string(),
        refresh_token: Some("r".to_string()),
        expires_at: None,
        pds_url: "https://bsky.social".to_string(),
    };
    let did_doc = JsonValue::Obj(vec![(
        "service".to_string(),
        JsonValue::Arr(vec![JsonValue::Obj(vec![
            ("id".to_string(), JsonValue::Str("#atproto_pds".to_string())),
            (
                "type".to_string(),
                JsonValue::Str("AtprotoPersonalDataServer".to_string()),
            ),
            (
                "serviceEndpoint".to_string(),
                JsonValue::Str("https://pds.example.com".to_string()),
            ),
        ])]),
    )]);
    let session = RefreshSession {
        access_jwt: "new_access".to_string(),
        refresh_jwt: "new_refresh".to_string(),
        did: "did:plc:me".to_string(),
        handle: "user.bsky.social".to_string(),
        did_doc: Some(did_doc),
    };
    let now = parse_indexed_at("2025-01-01T00:00:00Z").unwrap();
    let updated = apply_refresh_session(&oauth, "did:plc:me", &session, now).unwrap();
    assert_eq!(updated.access_token, "new_access");
    assert_eq!(updated.refresh_token, Some("new_refresh".to_string()));
    assert_eq!(updated.pds_url, "https://pds.example.com");
    let expires = updated.expires_at.unwrap();
    assert_eq!(parse_indexed_at(&expires).unwrap(), now + 7_200_000_000);
}

#[test]
fn pds_extraction_checks_id_and_type() {
    let doc = JsonValue::Obj(vec![(
        "service".to_string(),
        JsonValue::Arr(vec![
            JsonValue::Obj(vec![
                ("id".to_string(), JsonValue::Str("#other".to_string())),
                ("type".to_string(), JsonValue::Str("Other".to_string())),
                (
                    "serviceEndpoint".to_string(),
                    JsonValue::Str("https://other.example.com".to_string()),
                ),
            ]),
            JsonValue::Obj(vec![
                (
                    "id".to_string(),
                    JsonValue::Str("did:plc:me#atproto_pds".to_string()),
                ),
                (
                    "type".to_string(),
                    JsonValue::Str("AtprotoPersonalDataServer".to_string()),
                ),
                (
                    "serviceEndpoint".to_string(),
                    JsonValue::Str("https://pds.example.com".to_string()),
                ),
            ]),
        ]),
    )]);
    assert_eq!(
        extract_pds_endpoint(&doc),
        Some("https://pds.example.com".to_string())
    );
    assert_eq!(extract_pds_endpoint(&JsonValue::Obj(vec![])), None);
}
