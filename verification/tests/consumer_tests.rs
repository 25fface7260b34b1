use timeline_filter::consumer::{
    build_subscribe_options, decode_frame, did_from_aturi, handle_event, observe_time, WsFrame,
};
use timeline_filter::feedcfg::{FeedConfig, FeedQuery, Feeds, MatcherConfig};
use timeline_filter::json::JsonValue;
use timeline_filter::matcher::FeedMatchers;
use timeline_filter::store::IndexStore;

fn to_json(v: &serde_json::Value) -> JsonValue {
    match v {
        serde_json::Value::Null => JsonValue::Null,
        serde_json::Value::Bool(b) => JsonValue::Bool(*b),
        serde_json::Value::Number(n) => match n.as_i64() {
            Some(i) => JsonValue::Num(i),
            None => JsonValue::Other,
        },
        serde_json::Value::String(s) => JsonValue::Str(s.clone()),
        serde_json::Value::Array(a) => JsonValue::Arr(a.iter().map(to_json).collect()),
        serde_json::Value::Object(o) => {
            JsonValue::Obj(o.iter().map(|(k, x)| (k.clone(), to_json(x))).collect())
        }
    }
}

fn commit_event() -> JsonValue {
    let raw = r#"{"did": "did:plc:A", "kind": "commit", "time_us": 100,
        "commit": {"collection": "app.bsky.feed.post", "rkey": "r1",
                   "record": {"$type": "app.bsky.feed.post"}}}"#;
    to_json(&serde_json::from_str(raw).expect("json is valid"))
}

fn author_feeds(uris: &[&str]) -> FeedMatchers {
    let feeds = Feeds {
        feeds: uris
            .iter()
            .map(|uri| FeedConfig {
                uri: uri.to_string(),
                deny: None,
                allow: Vec::new(),
                matchers: vec![MatcherConfig::Equal {
                    path: "$.did".to_string(),
                    value: "did:plc:a".to_string(),
                    aturi: None,
                }],
                query: FeedQuery::Simple { limit: 100 },
            })
            .collect(),
    };
    FeedMatchers::from_config(&feeds).expect("matchers are valid")
}

#[test]
fn equals_match_on_author_indexes_one_row() {
    let mut store = IndexStore::new();
    let matchers = author_feeds(&["at://feed/one"]);
    handle_event(&mut store, &matchers, &commit_event(), 7);

    let rows = store.feed_content_cached("at://feed/one", 10);
    assert_eq!(rows.len(), 1);
    assert_eq!(rows[0].uri, "at://did:plc:A/app.bsky.feed.post/r1");
    assert_eq!(rows[0].indexed_at, 100);
    assert_eq!(rows[0].score, 1);
}

#[test]
fn deny_short_circuit_blocks_every_feed() {
    let mut store = IndexStore::new();
    store.denylist_upsert("did:plc:A", "n/a", 1);
    let matchers = author_feeds(&["at://feed/one", "at://feed/two"]);
    handle_event(&mut store, &matchers, &commit_event(), 7);

    assert_eq!(store.feed_content_cached("at://feed/one", 10).len(), 0);
    assert_eq!(store.feed_content_cached("at://feed/two", 10).len(), 0);
}

#[test]
fn duplicate_commits_leave_one_row_with_its_score() {
    let mut store = IndexStore::new();
    let matchers = author_feeds(&["at://feed/one"]);
    handle_event(&mut store, &matchers, &commit_event(), 7);
    handle_event(&mut store, &matchers, &commit_event(), 8);

    let rows = store.feed_content_cached("at://feed/one", 10);
    assert_eq!(rows.len(), 1);
    assert_eq!(rows[0].score, 1);
}

#[test]
fn non_commit_events_change_nothing() {
    let mut store = IndexStore::new();
    let matchers = author_feeds(&["at://feed/one"]);
    let raw = r#"{"did": "did:plc:A", "kind": "identity", "time_us": 100}"#;
    let event = to_json(&serde_json::from_str(raw).unwrap());
    handle_event(&mut store, &matchers, &event, 7);
    assert_eq!(store.feed_content_cached("at://feed/one", 10).len(), 0);
}

#[test]
fn the_cursor_tracks_the_largest_time_seen() {
    let mut cur: i64 = 0;
    let raws = [
        r#"{"kind": "commit", "time_us": 50}"#,
        r#"{"kind": "commit", "time_us": 200}"#,
        r#"{"kind": "commit", "time_us": 120}"#,
    ];
    for raw in raws {
        let event = to_json(&serde_json::from_str(raw).unwrap());
        cur = observe_time(cur, &event);
    }
    assert_eq!(cur, 200);

    let mut store = IndexStore::new();
    store.consumer_control_insert("host", cur, 1);
    assert_eq!(store.consumer_control_get("host"), Some(200));
}

#[test]
fn did_from_aturi_reads_the_owner() {
    assert_eq!(
        did_from_aturi("at://did:plc:abc/app.bsky.feed.post/xyz"),
        "did:plc:abc"
    );
    assert_eq!(did_from_aturi("at://did:plc:abc"), "did:plc:abc");
    assert_eq!(did_from_aturi("at://"), "");
    assert_eq!(did_from_aturi("x"), "");
}

#[test]
fn subscribe_options_carry_the_cursor() {
    let collections = vec!["app.bsky.feed.post".to_string()];
    let opts = build_subscribe_options(&collections, Some(42));
    assert_eq!(opts.wanted_collections, collections);
    assert!(opts.wanted_dids.is_empty());
    assert_eq!(opts.max_message_size_bytes, 25000);
    assert_eq!(opts.cursor, Some(42));
}

#[test]
fn text_frames_pass_through_without_compression() {
    let dict: Vec<u8> = Vec::new();
    let out = decode_frame(false, &dict, &WsFrame::Text("{\"kind\":\"x\"}".to_string()));
    assert_eq!(out.unwrap(), b"{\"kind\":\"x\"}".to_vec());
    assert!(decode_frame(false, &dict, &WsFrame::Binary(vec![1, 2])).is_err());
}

#[test]
fn binary_frames_are_decompressed_with_compression() {
    let data = b"{\"did\":\"did:plc:a\",\"kind\":\"commit\",\"time_us\":1}".to_vec();
    let compressed = zstd::bulk::compress(&data, 3).expect("compression works");
    assert_ne!(compressed, data);
    let dict: Vec<u8> = Vec::new();
    let out = decode_frame(true, &dict, &WsFrame::Binary(compressed)).unwrap();
    assert_eq!(out, data);
    assert!(decode_frame(true, &dict, &WsFrame::Text("x".to_string())).is_err());
    assert!(decode_frame(true, &dict, &WsFrame::Binary(vec![9, 9, 9])).is_err());
}
