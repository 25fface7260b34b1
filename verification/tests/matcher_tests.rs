use timeline_filter::json::JsonValue;
use timeline_filter::matcher::{sequence_matches, EqualsMatcher, PrefixMatcher, SequenceMatcher};

fn to_json(v: &serde_json::Value) -> JsonValue {
    match v {
        serde_json::Value::Null => JsonValue::Null,
        serde_json::Value::Bool(b) => JsonValue::Bool(*b),
        serde_json::Value::Number(n) => match n.as_i64() {
            Some(i) => JsonValue::Num(i),
            None => JsonValue::Other,
        },
        serde_json::Value::String(s) => JsonValue::Str(s.clone()),
        serde_json::Value::Array(a) => JsonValue::Arr(a.iter().map(to_json).collect()),
        serde_json::Value::Object(o) => {
            JsonValue::Obj(o.iter().map(|(k, x)| (k.clone(), to_json(x))).collect())
        }
    }
}

fn parse_event(raw: &str) -> JsonValue {
    let value: serde_json::Value = serde_json::from_str(raw).expect("json is valid");
    to_json(&value)
}

#[test]
fn equals_matcher() {
    let raw_json = r#"{
    "did": "did:plc:tgudj2fjm77pzkuawquqhsxm",
    "time_us": 1730491093829414,
    "kind": "commit",
    "commit": {
        "rev": "3l7vxhiuibq2u",
        "operation": "create",
        "collection": "app.bsky.feed.post",
        "rkey": "3l7vxhiu4kq2u",
        "record": {
            "$type": "app.bsky.feed.post",
            "createdAt": "2024-11-01T19:58:12.980Z",
            "langs": ["en", "es"],
            "text": "hey dnd question, what does a 45 on a stealth check look like"
        },
        "cid": "bafyreide7jpu67vvkn4p2iznph6frbwv6vamt7yg5duppqjqggz4sdfik4"
    }
}"#;

    let value = parse_event(raw_json);

    let tests = vec![
        ("$.did", "did:plc:tgudj2fjm77pzkuawquqhsxm", true),
        ("$.commit.record['$type']", "app.bsky.feed.post", true),
        ("$.commit.record.langs.*", "en", true),
        (
            "$.commit.record.text",
            "hey dnd question, what does a 45 on a stealth check look like",
            true,
        ),
        ("$.did", "did:plc:tgudj2fjm77pzkuawquqhsxn", false),
        ("$.commit.record.notreal", "value", false),
    ];

    for (path, expected, result) in tests {
        let matcher = EqualsMatcher::new(expected, path, &None).expect("matcher is valid");
        let maybe_match = matcher.matches(&value).unwrap();
        assert_eq!(maybe_match.is_some(), result);
    }
}

#[test]
fn prefix_matcher() {
    let raw_json = r#"{
    "did": "did:plc:tgudj2fjm77pzkuawquqhsxm",
    "time_us": 1730491093829414,
    "kind": "commit",
    "commit": {
        "rev": "3l7vxhiuibq2u",
        "operation": "create",
        "collection": "app.bsky.feed.post",
        "rkey": "3l7vxhiu4kq2u",
        "record": {
            "$type": "app.bsky.feed.post",
            "createdAt": "2024-11-01T19:58:12.980Z",
            "langs": ["en"],
            "text": "hey dnd question, what does a 45 on a stealth check look like",
            "facets": [
                {
                    "features": [{"$type": "app.bsky.richtext.facet#tag", "tag": "dungeonsanddragons"}],
                    "index": { "byteEnd": 1, "byteStart": 0 }
                },
                {
                    "features": [{"$type": "app.bsky.richtext.facet#tag", "tag": "gaming"}],
                    "index": { "byteEnd": 1, "byteStart": 0 }
                }
            ]
        },
        "cid": "bafyreide7jpu67vvkn4p2iznph6frbwv6vamt7yg5duppqjqggz4sdfik4"
    }
}"#;

    let value = parse_event(raw_json);

    let tests = vec![
        ("$.commit.record['$type']", "app.bsky.", true),
        ("$.commit.record.langs.*", "e", true),
        ("$.commit.record.text", "hey dnd question", true),
        ("$.commit.record.facets[*].features[?(@['$type'] == 'app.bsky.richtext.facet#tag')].tag", "dungeons", true),
        ("$.commit.record.notreal", "value", false),
        ("$.commit.record['$type']", "com.bsky.", false),
    ];

    for (path, prefix, result) in tests {
        let matcher = PrefixMatcher::new(prefix, path, &None).expect("matcher is valid");
        let maybe_match = matcher.matches(&value).unwrap();
        assert_eq!(maybe_match.is_some(), result);
    }
}

#[test]
fn sequence_matcher() {
    let raw_json = r#"{
    "did": "did:plc:tgudj2fjm77pzkuawquqhsxm",
    "time_us": 1730491093829414,
    "kind": "commit",
    "commit": {
        "rev": "3l7vxhiuibq2u",
        "operation": "create",
        "collection": "app.bsky.feed.post",
        "rkey": "3l7vxhiu4kq2u",
        "record": {
            "$type": "app.bsky.feed.post",
            "createdAt": "2024-11-01T19:58:12.980Z",
            "langs": ["en"],
            "text": "hey dnd question, what does a 45 on a stealth check look like",
            "facets": [
                {
                    "features": [{"$type": "app.bsky.richtext.facet#tag", "tag": "dungeonsanddragons"}],
                    "index": { "byteEnd": 1, "byteStart": 0 }
                },
                {
                    "features": [{"$type": "app.bsky.richtext.facet#tag", "tag": "gaming"}],
                    "index": { "byteEnd": 1, "byteStart": 0 }
                }
            ]
        },
        "cid": "bafyreide7jpu67vvkn4p2iznph6frbwv6vamt7yg5duppqjqggz4sdfik4"
    }
}"#;

    let value = parse_event(raw_json);

    let tests: Vec<(&str, Vec<String>, bool)> = vec![
        (
            "$.commit.record.text",
            vec!["hey".into(), "dnd".into(), "question".into()],
            true,
        ),
        (
            "$.commit.record.facets[*].features[?(@['$type'] == 'app.bsky.richtext.facet#tag')].tag",
            vec!["dungeons".into(), "and".into(), "dragons".into()],
            true,
        ),
        (
            "$.commit.record.text",
            vec!["hey".into(), "question".into(), "dnd".into()],
            false,
        ),
        (
            "$.commit.record.operation",
            vec!["hey".into(), "dnd".into(), "question".into()],
            false,
        ),
        (
            "$.commit.record.text",
            vec!["hey".into(), "nick".into()],
            false,
        ),
    ];

    for (path, values, result) in tests {
        let matcher = SequenceMatcher::new(&values, path, &None).expect("matcher is valid");
        let maybe_match = matcher.matches(&value).unwrap();
        assert_eq!(maybe_match.is_some(), result);
    }
}

#[test]
fn sequence_matcher_edge_case_1() {
    let raw_json = r#"{"text": "Stellwerkstörung. Und Signalstörung.  Und der Alternativzug ist auch ausgefallen. Und überhaupt."}"#;
    let value = parse_event(raw_json);
    let matcher = SequenceMatcher::new(
        &vec!["smoke".to_string(), "signal".to_string()],
        "$.text",
        &None,
    )
    .unwrap();
    let maybe_match = matcher.matches(&value).unwrap();
    assert_eq!(maybe_match.is_some(), false);
}

#[test]
fn sequence_matches_scans_past_the_previous_match() {
    let text = "stellwerkstörung. und signalstörung.";
    assert!(!sequence_matches(
        &["smoke".to_string(), "signal".to_string()],
        text
    ));
    assert!(sequence_matches(
        &["stellwerk".to_string(), "signal".to_string()],
        text
    ));
    assert!(!sequence_matches(
        &["signal".to_string(), "stellwerk".to_string()],
        text
    ));
    let empty: Vec<String> = Vec::new();
    assert!(!sequence_matches(&empty, text));

    // A word that also occurs before the previous match does not disturb the
    // scan: each word is searched from just past the previous match.
    assert!(sequence_matches(
        &["smoke".to_string(), "signal".to_string()],
        "signal smoke signal"
    ));
    assert!(!sequence_matches(
        &["smoke".to_string(), "signal".to_string()],
        "signal smoke"
    ));
    // Repeated words need repeated occurrences.
    assert!(sequence_matches(
        &["signal".to_string(), "signal".to_string()],
        "signal smoke signal"
    ));
    assert!(!sequence_matches(
        &["signal".to_string(), "signal".to_string()],
        "signal smoke"
    ));
}

#[test]
fn configured_values_are_compared_lowercase() {
    let raw_json = r#"{"did": "did:plc:abc", "kind": "commit",
        "commit": {"collection": "app.bsky.feed.post", "rkey": "r1",
                   "record": {"$type": "app.bsky.feed.post"}}}"#;
    let value = parse_event(raw_json);
    let matcher = EqualsMatcher::new("DID:PLC:ABC", "$.did", &None).unwrap();
    assert!(matcher.matches(&value).unwrap().is_some());
    let prefix = PrefixMatcher::new("DID:PLC", "$.did", &None).unwrap();
    assert!(prefix.matches(&value).unwrap().is_some());
    let words = SequenceMatcher::new(
        &vec!["DID".to_string(), "PLC".to_string(), "ABC".to_string()],
        "$.did",
        &None,
    )
    .unwrap();
    assert!(words.matches(&value).unwrap().is_some());
}

#[test]
fn matcher_lowers_the_node_before_comparing() {
    let raw_json = r#"{"did": "DID:PLC:ABC", "kind": "commit",
        "commit": {"collection": "app.bsky.feed.post", "rkey": "r1",
                   "record": {"$type": "app.bsky.feed.post"}}}"#;
    let value = parse_event(raw_json);
    let matcher = EqualsMatcher::new("did:plc:abc", "$.did", &None).unwrap();
    let m = matcher.matches(&value).unwrap();
    assert!(m.is_some());
    assert_eq!(m.unwrap().1, "at://DID:PLC:ABC/app.bsky.feed.post/r1");
}

#[test]
fn aturi_falls_back_to_the_liked_record() {
    let raw_json = r#"{"did": "did:plc:liker", "kind": "commit",
        "commit": {"collection": "app.bsky.feed.like", "rkey": "l1",
                   "record": {"$type": "app.bsky.feed.like",
                              "subject": {"uri": "at://did:plc:author/app.bsky.feed.post/p9"}}}}"#;
    let value = parse_event(raw_json);
    let matcher = EqualsMatcher::new("did:plc:liker", "$.did", &None).unwrap();
    let m = matcher.matches(&value).unwrap().unwrap();
    assert_eq!(m.1, "at://did:plc:author/app.bsky.feed.post/p9");
}

#[test]
fn matched_without_derivable_aturi_is_an_error() {
    let raw_json = r#"{"did": "did:plc:a", "kind": "commit",
        "commit": {"record": {"$type": "app.bsky.graph.follow"}}}"#;
    let value = parse_event(raw_json);
    let matcher = EqualsMatcher::new("did:plc:a", "$.did", &None).unwrap();
    assert!(matcher.matches(&value).is_err());
}

#[test]
fn script_matchers_are_rejected_at_load() {
    let feeds = timeline_filter::feedcfg::Feeds {
        feeds: vec![timeline_filter::feedcfg::FeedConfig {
            uri: "at://did:plc:gen/app.bsky.feed.generator/one".to_string(),
            deny: None,
            allow: Vec::new(),
            matchers: vec![timeline_filter::feedcfg::MatcherConfig::Script {
                path: "matcher.rhai".to_string(),
            }],
            query: timeline_filter::feedcfg::FeedQuery::Simple { limit: 100 },
        }],
    };
    assert!(timeline_filter::matcher::FeedMatchers::from_config(&feeds).is_err());
}

#[test]
fn match_constructors_carry_the_operation() {
    let up = timeline_filter::matcher::Match::upsert("at://a/p/1");
    assert!(matches!(up.0, timeline_filter::matcher::MatchOperation::Upsert));
    assert_eq!(up.1, "at://a/p/1");
    let upd = timeline_filter::matcher::Match::update("at://a/p/2");
    assert!(matches!(upd.0, timeline_filter::matcher::MatchOperation::Update));
    assert_eq!(upd.1, "at://a/p/2");
}
