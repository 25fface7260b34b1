use vstd::prelude::*;
use crate::feedcfg::Feeds;
use crate::json::JsonValue;
use crate::matcher::{spec_feed_first, FeedMatcher, FeedMatchers, Match, MatchOperation};
use crate::store::{has_row, row_key, FeedContent, IndexStore};
use crate::strutil::clone_string_vec;

verus! {

/// The biggest frame asked of the upstream relay, in bytes.
pub const MAX_MESSAGE_SIZE: u64 = 25000;

/// What the firehose consumer is configured with.
pub struct ConsumerTaskConfig {
    pub user_agent: String,
    pub compression: bool,
    pub zstd_dictionary_location: String,
    pub jetstream_hostname: Option<String>,
    pub feeds: Feeds,
    pub collections: Vec<String>,
}

/// The one control frame sent upstream right after connecting.
pub struct SubscribeOptions {
    pub wanted_collections: Vec<String>,
    pub wanted_dids: Vec<String>,
    pub max_message_size_bytes: u64,
    pub cursor: Option<i64>,
}

/// The options frame: the configured collections, no DIDs, the fixed frame
/// bound, and the cursor persisted for this host, if any.
pub fn build_subscribe_options(collections: &Vec<String>, cursor: Option<i64>) -> (r:
    SubscribeOptions)
    ensures
        r.wanted_collections@ == collections@,
        r.wanted_dids@.len() == 0,
        r.max_message_size_bytes == MAX_MESSAGE_SIZE,
        r.cursor == cursor,
{
    SubscribeOptions {
        wanted_collections: clone_string_vec(collections),
        wanted_dids: Vec::new(),
        max_message_size_bytes: MAX_MESSAGE_SIZE,
        cursor,
    }
}

/// The first position at or after `k` holding `/`, or the end.
pub open spec fn spec_slash_end(s: Seq<char>, k: int) -> int
    decreases s.len() - k,
    when 0 <= k <= s.len()
{
    if k == s.len() {
        k
    } else if s[k] == '/' {
        k
    } else {
        spec_slash_end(s, k + 1)
    }
}

/// The DID inside an AT-URI: the characters after `at://` up to the next `/`.
/// Too short a string yields the empty DID.
pub open spec fn spec_did_of_aturi(s: Seq<char>) -> Seq<char> {
    if s.len() < 6 {
        Seq::empty()
    } else {
        s.subrange(5, spec_slash_end(s, 5))
    }
}

/// Extract the author DID from an AT-URI.
#[verifier::loop_isolation(false)]
pub fn did_from_aturi(aturi: &str) -> (r: String)
    ensures
        r@ == spec_did_of_aturi(aturi@),
{
    let len = aturi.unicode_len();
    if len < 6 {
        let out = String::new();
        proof {
            assert(out@ =~= spec_did_of_aturi(aturi@));
        }
        return out;
    }
    let mut e: usize = 5;
    while e < len
        invariant
            len == aturi@.len(),
            5 <= e <= len,
            spec_slash_end(aturi@, 5) == spec_slash_end(aturi@, e as int),
        decreases len - e,
    {
        if aturi.get_char(e) == '/' {
            break ;
        }
        e += 1;
    }
    aturi.substring_char(5, e).to_owned()
}

/// The event's `time_us`, when it carries an integer one.
pub open spec fn spec_event_time(v: JsonValue) -> Option<i64> {
    match crate::json::spec_get(v, "time_us"@) {
        Some(JsonValue::Num(t)) => Some(t),
        _ => None,
    }
}

/// Fold an event into the running maximum of observed `time_us` values.
pub fn observe_time(cur: i64, v: &JsonValue) -> (r: i64)
    ensures
        r == match spec_event_time(*v) {
            Some(t) => if t > cur {
                t
            } else {
                cur
            },
            None => cur,
        },
        r >= cur,
{
    match v.get("time_us") {
        Some(t) => match t {
            JsonValue::Num(n) => if *n > cur {
                *n
            } else {
                cur
            },
            _ => cur,
        },
        None => cur,
    }
}

/// The running maximum of a sequence of times over an initial value.
pub open spec fn spec_running_max(ts: Seq<i64>, init: i64) -> i64
    decreases ts.len(),
{
    if ts.len() == 0 {
        init
    } else {
        spec_running_max(
            ts.drop_first(),
            if ts[0] > init {
                ts[0]
            } else {
                init
            },
        )
    }
}

/// The cursor is a watermark: every observed event time, and the initial
/// cursor, lie at or below the running maximum that a checkpoint persists.
pub proof fn lemma_cursor_watermark(ts: Seq<i64>, init: i64)
    ensures
        init <= spec_running_max(ts, init),
        forall|i: int| 0 <= i < ts.len() ==> ts[i] <= spec_running_max(ts, init),
    decreases ts.len(),
{
    if ts.len() > 0 {
        let next = if ts[0] > init {
            ts[0]
        } else {
            init
        };
        lemma_cursor_watermark(ts.drop_first(), next);
        assert forall|i: int| 0 <= i < ts.len() implies ts[i] <= spec_running_max(ts, init) by {
            if i > 0 {
                assert(ts.drop_first()[i - 1] == ts[i]);
            }
        }
    }
}

/// One received websocket frame, as the library reads it.
#[derive(Debug)]
pub enum WsFrame {
    Text(String),
    Binary(Vec<u8>),
    Other,
}

/// The name of what zstd's dictionary decompressor yields for a frame:
/// nothing when the frame is not a valid compressed frame for the dictionary
/// or its content exceeds the capacity, else the decompressed bytes.
pub uninterp spec fn zstd_decode(dict: Seq<u8>, payload: Seq<u8>, capacity: int) -> Option<Seq<u8>>;

/// Relies on zstd::bulk::Decompressor::with_dictionary and its decompress:
/// the outcome depends on the dictionary, the payload and the capacity alone.
#[verifier::external_body]
fn zstd_decompress(dict: &Vec<u8>, payload: &Vec<u8>, capacity: usize) -> (r: Option<Vec<u8>>)
    ensures
        match r {
            Some(b) => zstd_decode(dict@, payload@, capacity as int) == Some(b@),
            None => zstd_decode(dict@, payload@, capacity as int) is None,
        },
{
    match zstd::bulk::Decompressor::with_dictionary(dict) {
        Ok(mut d) => d.decompress(payload, capacity).ok(),
        Err(_) => None,
    }
}

/// Decode one received frame into event bytes. With compression on, only
/// binary frames are accepted, decompressed with the dictionary and bounded
/// by three times the frame size asked of the upstream; with compression
/// off, only text frames are accepted, as their UTF-8 bytes. Everything else
/// is an error to log and skip.
pub fn decode_frame(compression: bool, dict: &Vec<u8>, frame: &WsFrame) -> (r: Result<
    Vec<u8>,
    crate::errors::TimelineFilterError,
>)
    ensures
        compression ==> match frame {
            WsFrame::Binary(p) => match zstd_decode(
                dict@,
                p@,
                3 * MAX_MESSAGE_SIZE as int,
            ) {
                Some(b) => r matches Ok(out) && out@ == b,
                None => r is Err,
            },
            _ => r is Err,
        },
        !compression ==> match frame {
            WsFrame::Text(t) => r matches Ok(out) && out@ == vstd::utf8::encode_utf8(t@),
            _ => r is Err,
        },
{
    if compression {
        match frame {
            WsFrame::Binary(p) => match zstd_decompress(dict, p, 3 * (MAX_MESSAGE_SIZE as usize)) {
                Some(b) => Ok(b),
                None => Err(crate::errors::TimelineFilterError::new("cannot decompress message")),
            },
            _ => Err(
                crate::errors::TimelineFilterError::new(
                    "compression enabled but the frame is not binary",
                ),
            ),
        }
    } else {
        match frame {
            WsFrame::Text(t) => Ok(t.as_str().as_bytes_vec()),
            _ => Err(
                crate::errors::TimelineFilterError::new(
                    "compression disabled but the frame is not text",
                ),
            ),
        }
    }
}

/// The fields processing needs of a commit event: its author DID and its
/// time, present exactly when the event is a commit with both fields.
pub open spec fn spec_commit_fields(v: JsonValue) -> Option<(Seq<char>, i64)> {
    let kind = crate::json::spec_as_str(crate::json::spec_get(v, "kind"@));
    let did = crate::json::spec_as_str(crate::json::spec_get(v, "did"@));
    let t = spec_event_time(v);
    if kind == Some("commit"@) && did is Some && t is Some {
        Some((did.unwrap(), t.unwrap()))
    } else {
        None
    }
}

/// The first feed, from `k` on, whose match the deny list stops: its own
/// author or the matched AT-URI's owner is denied. Evaluation of later feeds
/// stops there.
pub open spec fn spec_stop_index(
    st: IndexStore,
    feeds: Seq<FeedMatcher>,
    v: JsonValue,
    did: Seq<char>,
    k: int,
) -> int
    decreases feeds.len() - k,
    when 0 <= k <= feeds.len()
{
    if k == feeds.len() {
        k
    } else {
        match spec_feed_first(feeds[k].matchers@, v, 0) {
            Some(u) => if st.is_denied(did) || st.is_denied(spec_did_of_aturi(u)) {
                k
            } else {
                spec_stop_index(st, feeds, v, did, k + 1)
            },
            None => spec_stop_index(st, feeds, v, did, k + 1),
        }
    }
}

/// The stop index lies between `k` and the number of feeds.
proof fn lemma_stop_bounds(
    st: IndexStore,
    feeds: Seq<FeedMatcher>,
    v: JsonValue,
    did: Seq<char>,
    k: int,
)
    requires
        0 <= k <= feeds.len(),
    ensures
        k <= spec_stop_index(st, feeds, v, did, k) <= feeds.len(),
    decreases feeds.len() - k,
{
    if k < feeds.len() {
        lemma_stop_bounds(st, feeds, v, did, k + 1);
    }
}

/// Evaluate one decoded event against every feed and write the qualifying
/// matches into the index.
///
/// A non-commit event, or one without an author or a time, changes nothing.
/// Matches are upserts with score 1 at the event's time. The first match
/// whose author or AT-URI owner is denied writes nothing and stops the
/// evaluation of the remaining feeds; in particular a denied author never
/// gains a row anywhere.
#[verifier::loop_isolation(false)]
pub fn handle_event(
    store: &mut IndexStore,
    feed_matchers: &FeedMatchers,
    event: &JsonValue,
    now: i64,
)
    requires
        old(store).wf(),
    ensures
        final(store).wf(),
        IndexStore::same_but_rows(*old(store), *final(store)),
        spec_commit_fields(*event) is None ==> final(store).rows@ == old(store).rows@,
        spec_commit_fields(*event) matches Some((did, time_us)) ==> {
            let feeds = feed_matchers.0@;
            let stop = spec_stop_index(*old(store), feeds, *event, did, 0);
            // Rows already present stay exactly as they were.
            &&& final(store).rows@.len() >= old(store).rows@.len()
            &&& forall|i: int|
                0 <= i < old(store).rows@.len() ==> final(store).rows@[i] == old(store).rows@[i]
            // Every feed matched before the deny stop has its row.
            &&& forall|k: int|
                0 <= k < stop ==> match spec_feed_first((#[trigger] feeds[k]).matchers@, *event, 0) {
                    Some(u) => has_row(final(store).rows@, feeds[k].feed@, u),
                    None => true,
                }
            // Every new row is a fresh match: score 1, the event's time, and
            // a feed matched before the stop with no denied party.
            &&& forall|i: int|
                old(store).rows@.len() <= i < final(store).rows@.len() ==> {
                    let row = #[trigger] final(store).rows@[i];
                    &&& row.score == 1
                    &&& row.indexed_at == time_us
                    &&& row.updated_at == now
                    &&& !old(store).is_denied(did)
                    &&& !old(store).is_denied(spec_did_of_aturi(row.uri@))
                    &&& exists|k: int|
                        0 <= k < stop && (#[trigger] feeds[k]).feed@ == row.feed_id@
                            && spec_feed_first(feeds[k].matchers@, *event, 0) == Some(row.uri@)
                }
            // A denied author yields zero index writes.
            &&& old(store).is_denied(did) ==> final(store).rows@ == old(store).rows@
        },
{
    let kind_ok = match event.get("kind") {
        Some(k) => match k.as_str() {
            Some(s) => crate::strutil::str_eq(s.as_str(), "commit"),
            None => false,
        },
        None => false,
    };
    if !kind_ok {
        return ;
    }
    let did: String = match event.get("did") {
        Some(d) => match d.as_str() {
            Some(s) => s.clone(),
            None => {
                return ;
            },
        },
        None => {
            return ;
        },
    };
    let time_us: i64 = match event.get("time_us") {
        Some(t) => match t {
            JsonValue::Num(n) => *n,
            _ => {
                return ;
            },
        },
        None => {
            return ;
        },
    };
    proof {
        assert(spec_commit_fields(*event) == Some((did@, time_us)));
    }
    let ghost feeds = feed_matchers.0@;
    let ghost stop = spec_stop_index(*old(store), feeds, *event, did@, 0);
    let mut k: usize = 0;
    while k < feed_matchers.0.len()
        invariant
            store.wf(),
            IndexStore::same_but_rows(*old(store), *store),
            0 <= k <= feeds.len(),
            spec_stop_index(*old(store), feeds, *event, did@, 0) == spec_stop_index(
                *old(store),
                feeds,
                *event,
                did@,
                k as int,
            ),
            store.rows@.len() >= old(store).rows@.len(),
            forall|i: int|
                0 <= i < old(store).rows@.len() ==> store.rows@[i] == old(store).rows@[i],
            forall|k2: int|
                0 <= k2 < k ==> match spec_feed_first(
                    (#[trigger] feeds[k2]).matchers@,
                    *event,
                    0,
                ) {
                    Some(u) => has_row(store.rows@, feeds[k2].feed@, u),
                    None => true,
                },
            forall|i: int|
                old(store).rows@.len() <= i < store.rows@.len() ==> {
                    let row = #[trigger] store.rows@[i];
                    &&& row.score == 1
                    &&& row.indexed_at == time_us
                    &&& row.updated_at == now
                    &&& !old(store).is_denied(did@)
                    &&& !old(store).is_denied(spec_did_of_aturi(row.uri@))
                    &&& exists|k2: int|
                        0 <= k2 < stop && (#[trigger] feeds[k2]).feed@ == row.feed_id@
                            && spec_feed_first(feeds[k2].matchers@, *event, 0) == Some(row.uri@)
                },
            old(store).is_denied(did@) ==> store.rows@ == old(store).rows@,
        decreases feeds.len() - k,
    {
        let fm = &feed_matchers.0[k];
        match fm.matches(event) {
            None => {
                proof {
                    assert(spec_stop_index(*old(store), feeds, *event, did@, k as int)
                        == spec_stop_index(*old(store), feeds, *event, did@, k + 1));
                }
            },
            Some(m) => {
                let ghost u = m.1@;
                let aturi_did = did_from_aturi(m.1.as_str());
                let mut subjects: Vec<String> = Vec::new();
                subjects.push(did.clone());
                subjects.push(aturi_did);
                if store.denylist_exists(&subjects) {
                    proof {
                        assert(subjects@[0]@ == did@);
                        assert(subjects@[1]@ == spec_did_of_aturi(u));
                        assert(store.is_denied(did@) || store.is_denied(spec_did_of_aturi(u)));
                        assert(old(store).is_denied(did@) || old(store).is_denied(
                            spec_did_of_aturi(u),
                        ));
                        assert(spec_stop_index(*old(store), feeds, *event, did@, k as int)
                            == k as int);
                    }
                    return ;
                }
                proof {
                    assert(forall|j: int|
                        0 <= j < subjects@.len() ==> !store.is_denied(#[trigger] subjects@[j]@));
                    assert(subjects@[0]@ == did@);
                    assert(subjects@[1]@ == spec_did_of_aturi(u));
                    assert(!store.is_denied(did@));
                    assert(!store.is_denied(spec_did_of_aturi(u)));
                }
                let Match(op, aturi) = m;
                let content = FeedContent {
                    feed_id: fm.feed.clone(),
                    uri: aturi,
                    indexed_at: time_us,
                    score: 1,
                    is_repost: false,
                    repost_uri: None,
                };
                match op {
                    MatchOperation::Upsert => {
                        let ghost pre = store.rows@;
                        store.feed_content_upsert(&content, now);
                        proof {
                            assert(content.feed_id@ == fm.feed@ && content.uri@ == u);
                            if has_row(pre, fm.feed@, u) {
                                let w = choose|w: int|
                                    0 <= w < pre.len() && row_key(pre[w]) == (fm.feed@, u);
                                assert(row_key(store.rows@[w]) == (fm.feed@, u));
                            } else {
                                assert(store.rows@[store.rows@.len() - 1]
                                    == crate::store::spec_row_of(content, now));
                                assert(row_key(store.rows@[store.rows@.len() - 1]) == (
                                    fm.feed@,
                                    u,
                                ));
                            }
                            assert(has_row(store.rows@, fm.feed@, u));
                            assert forall|k2: int|
                                0 <= k2 < k + 1 implies match spec_feed_first(
                                (#[trigger] feeds[k2]).matchers@,
                                *event,
                                0,
                            ) {
                                Some(u2) => has_row(store.rows@, feeds[k2].feed@, u2),
                                None => true,
                            } by {
                                if k2 < k {
                                    match spec_feed_first(feeds[k2].matchers@, *event, 0) {
                                        Some(u2) => {
                                            assert(has_row(pre, feeds[k2].feed@, u2));
                                            let w = choose|w: int|
                                                0 <= w < pre.len() && row_key(pre[w]) == (
                                                feeds[k2].feed@,
                                                u2,
                                            );
                                            assert(store.rows@[w] == pre[w]);
                                        },
                                        None => {},
                                    }
                                }
                            }
                            assert(spec_stop_index(*old(store), feeds, *event, did@, k as int)
                                == spec_stop_index(
                                *old(store),
                                feeds,
                                *event,
                                did@,
                                k + 1,
                            ));
                            lemma_stop_bounds(*old(store), feeds, *event, did@, k + 1);
                            assert(k < stop);
                        }
                    },
                    MatchOperation::Update => {
                        // Matchers only produce upserts, so this arm cannot
                        // be reached; an update match would bump the row's
                        // score without creating one.
                        proof {
                            assert(false);
                        }
                        store.feed_content_update(&content, now);
                    },
                }
            },
        }
        k += 1;
    }
}

} // verus!
