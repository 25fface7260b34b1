use vstd::prelude::*;
use crate::errors::TimelineFilterError;
use crate::json::JsonValue;
use crate::store::{has_row, row_key, FeedContent, IndexStore};
use crate::strutil::{str_ends_with, str_eq, str_starts_with};
use crate::timeline_config::{rfc3339_micros, FilterConfig, OAuthConfig};

verus! {

/// What `getTimeline` returns: a resumption cursor and the feed entries.
#[derive(Debug)]
pub struct TimelineResponse {
    pub cursor: Option<String>,
    pub feed: Vec<FeedViewPost>,
}

/// One timeline entry: the post, and why it appears.
#[derive(Debug)]
pub struct FeedViewPost {
    pub post: PostView,
    pub reason: Option<ReasonRepost>,
    pub reply: Option<ReplyRef>,
}

/// A post as the timeline shows it. Fields the upstream sometimes omits for
/// deleted or unavailable posts are optional; entries missing what indexing
/// needs are skipped.
#[derive(Debug)]
pub struct PostView {
    pub uri: String,
    pub cid: Option<String>,
    pub author: Option<ProfileViewBasic>,
    pub record: Option<JsonValue>,
    pub indexed_at: Option<String>,
}

/// Why an entry is in the timeline: somebody reposted it.
#[derive(Debug)]
pub struct ReasonRepost {
    pub reason_type: String,
    pub by: ProfileViewBasic,
    pub uri: Option<String>,
    pub cid: Option<String>,
    pub indexed_at: String,
}

/// A minimal author profile.
#[derive(Debug)]
pub struct ProfileViewBasic {
    pub did: String,
    pub handle: Option<String>,
    pub display_name: Option<String>,
    pub avatar: Option<String>,
}

/// The thread context of a reply.
#[derive(Debug)]
pub struct ReplyRef {
    pub root: PostView,
    pub parent: PostView,
}

/// Parse an RFC 3339 timestamp into microseconds since the epoch.
pub fn parse_indexed_at(indexed_at: &str) -> (r: Result<i64, TimelineFilterError>)
    ensures
        match r {
            Ok(t) => rfc3339_micros(indexed_at@) == Some(t),
            Err(_) => rfc3339_micros(indexed_at@) is None,
        },
{
    match crate::timeline_config::parse_rfc3339_micros(indexed_at) {
        Some(t) => Ok(t),
        None => Err(TimelineFilterError::new("failed to parse timestamp")),
    }
}

/// Whether a DID is blocked as a reposter.
pub open spec fn spec_blocked(filters: FilterConfig, did: Seq<char>) -> bool {
    exists|i: int|
        0 <= i < filters.blocked_reposters@.len() && (#[trigger] filters.blocked_reposters@[i])@
            == did
}

/// Whether a timeline entry survives the user's filters: a repost by a
/// blocked reposter is dropped, everything else passes.
pub open spec fn spec_keep_post(p: FeedViewPost, filters: FilterConfig) -> bool {
    match p.reason {
        Some(re) => !(re.reason_type@ == "app.bsky.feed.defs#reasonRepost"@ && spec_blocked(
            filters,
            re.by.did@,
        )),
        None => true,
    }
}

/// Keep the entries the user's filters let through, in order.
#[verifier::loop_isolation(false)]
pub fn filter_posts<'a>(posts: &'a Vec<FeedViewPost>, filters: &FilterConfig) -> (r: Vec<
    &'a FeedViewPost,
>)
    ensures
        r@.map_values(|p: &FeedViewPost| *p) == posts@.filter(
            |p: FeedViewPost| spec_keep_post(p, *filters),
        ),
{
    let ghost keep = |p: FeedViewPost| spec_keep_post(p, *filters);
    let mut out: Vec<&'a FeedViewPost> = Vec::new();
    let mut i: usize = 0;
    while i < posts.len()
        invariant
            0 <= i <= posts@.len(),
            keep == (|p: FeedViewPost| spec_keep_post(p, *filters)),
            out@.map_values(|p: &FeedViewPost| *p) == posts@.subrange(0, i as int).filter(keep),
        decreases posts@.len() - i,
    {
        proof {
            let pre = posts@.subrange(0, i as int);
            assert(posts@.subrange(0, i + 1) =~= pre.push(posts@[i as int]));
            reveal(Seq::filter);
            assert(pre.push(posts@[i as int]).drop_last() =~= pre);
        }
        let p = &posts[i];
        let keep_it = match &p.reason {
            Some(re) => {
                if str_eq(re.reason_type.as_str(), "app.bsky.feed.defs#reasonRepost") {
                    let mut blocked = false;
                    let mut j: usize = 0;
                    while j < filters.blocked_reposters.len()
                        invariant
                            0 <= j <= filters.blocked_reposters@.len(),
                            blocked ==> spec_blocked(*filters, re.by.did@),
                            !blocked ==> forall|j2: int|
                                0 <= j2 < j ==> (#[trigger] filters.blocked_reposters@[j2])@
                                    != re.by.did@,
                        decreases filters.blocked_reposters@.len() - j,
                    {
                        if str_eq(filters.blocked_reposters[j].as_str(), re.by.did.as_str()) {
                            blocked = true;
                        }
                        j += 1;
                    }
                    !blocked
                } else {
                    true
                }
            },
            None => true,
        };
        proof {
            assert(keep_it == keep(posts@[i as int]));
        }
        if keep_it {
            out.push(p);
            proof {
                assert(out@.map_values(|q: &FeedViewPost| *q) =~= posts@.subrange(0, i + 1).filter(
                    keep,
                ));
            }
        } else {
            proof {
                assert(out@.map_values(|q: &FeedViewPost| *q) =~= posts@.subrange(0, i + 1).filter(
                    keep,
                ));
            }
        }
        i += 1;
    }
    proof {
        assert(posts@.subrange(0, posts@.len() as int) =~= posts@);
    }
    out
}

/// What indexing stores for one surviving timeline entry.
#[derive(Debug)]
pub struct IndexPlan {
    pub uri: String,
    pub repost_uri: Option<String>,
    pub is_repost: bool,
    pub indexed_at: i64,
}

/// The row an entry yields: nothing for a post without an author, without a
/// usable timestamp, or whose timestamp does not parse. A repost that carries
/// its own URI is stored against the original post's URI with the repost's
/// time; anything else is stored as a plain post with the post's time.
pub open spec fn spec_plan_fields(p: FeedViewPost) -> Option<
    (Seq<char>, Option<Seq<char>>, bool, i64),
> {
    if p.post.author is None {
        None
    } else {
        let picked: Option<(Option<Seq<char>>, bool, Seq<char>)> = match p.reason {
            Some(re) => if re.reason_type@ == "app.bsky.feed.defs#reasonRepost"@ {
                match re.uri {
                    Some(ru) => Some((Some(ru@), true, re.indexed_at@)),
                    None => match p.post.indexed_at {
                        Some(ia) => Some((None, false, ia@)),
                        None => None,
                    },
                }
            } else {
                match p.post.indexed_at {
                    Some(ia) => Some((None, false, ia@)),
                    None => None,
                }
            },
            None => match p.post.indexed_at {
                Some(ia) => Some((None, false, ia@)),
                None => None,
            },
        };
        match picked {
            None => None,
            Some((ru, ir, ts)) => match rfc3339_micros(ts) {
                Some(t) => Some((p.post.uri@, ru, ir, t)),
                None => None,
            },
        }
    }
}

/// Decide what to store for one timeline entry, if anything.
pub fn plan_post_index(p: &FeedViewPost) -> (r: Option<IndexPlan>)
    ensures
        match r {
            Some(plan) => spec_plan_fields(*p) == Some(
                (
                    plan.uri@,
                    match plan.repost_uri {
                        Some(ru) => Some(ru@),
                        None => None,
                    },
                    plan.is_repost,
                    plan.indexed_at,
                ),
            ),
            None => spec_plan_fields(*p) is None,
        },
{
    if p.post.author.is_none() {
        return None;
    }
    let (repost_uri, is_repost, ts): (Option<String>, bool, &String) = match &p.reason {
        Some(re) => {
            if str_eq(re.reason_type.as_str(), "app.bsky.feed.defs#reasonRepost") {
                match &re.uri {
                    Some(ru) => (Some(ru.clone()), true, &re.indexed_at),
                    None => match &p.post.indexed_at {
                        Some(ia) => (None, false, ia),
                        None => {
                            return None;
                        },
                    },
                }
            } else {
                match &p.post.indexed_at {
                    Some(ia) => (None, false, ia),
                    None => {
                        return None;
                    },
                }
            }
        },
        None => match &p.post.indexed_at {
            Some(ia) => (None, false, ia),
            None => {
                return None;
            },
        },
    };
    match crate::timeline_config::parse_rfc3339_micros(ts.as_str()) {
        Some(t) => Some(
            IndexPlan { uri: p.post.uri.clone(), repost_uri, is_repost, indexed_at: t },
        ),
        None => None,
    }
}

/// The first PDS endpoint advertised by the services from `k` on. A service
/// entry missing a field stops the search, as reading it fails.
pub open spec fn spec_pds_from(services: Seq<JsonValue>, k: int) -> Option<Seq<char>>
    decreases services.len() - k,
    when 0 <= k <= services.len()
{
    if k == services.len() {
        None
    } else {
        let id = crate::json::spec_as_str(crate::json::spec_get(services[k], "id"@));
        let ty = crate::json::spec_as_str(crate::json::spec_get(services[k], "type"@));
        let ep = crate::json::spec_as_str(
            crate::json::spec_get(services[k], "serviceEndpoint"@),
        );
        if id is Some && ty is Some && ep is Some {
            if (("#atproto_pds"@).is_suffix_of(id.unwrap()) || id.unwrap() == "#atproto_pds"@)
                && ty.unwrap() == "AtprotoPersonalDataServer"@ && (("http://"@).is_prefix_of(
                ep.unwrap(),
            ) || ("https://"@).is_prefix_of(ep.unwrap())) {
                Some(ep.unwrap())
            } else {
                spec_pds_from(services, k + 1)
            }
        } else {
            None
        }
    }
}

/// The PDS endpoint a DID document advertises, if any.
pub open spec fn spec_extract_pds(doc: JsonValue) -> Option<Seq<char>> {
    match crate::json::spec_get(doc, "service"@) {
        Some(JsonValue::Arr(services)) => spec_pds_from(services@, 0),
        _ => None,
    }
}

/// The PDS endpoint from a DID document: the `serviceEndpoint` of the first
/// service whose id ends in `#atproto_pds` and whose type is the personal
/// data server, when it is an `http`/`https` URL.
#[verifier::loop_isolation(false)]
pub fn extract_pds_endpoint(did_doc: &JsonValue) -> (r: Option<String>)
    ensures
        match r {
            Some(ep) => spec_extract_pds(*did_doc) == Some(ep@),
            None => spec_extract_pds(*did_doc) is None,
        },
{
    let services = match did_doc.get("service") {
        Some(s) => match s {
            JsonValue::Arr(vs) => vs,
            _ => {
                return None;
            },
        },
        None => {
            return None;
        },
    };
    let mut k: usize = 0;
    while k < services.len()
        invariant
            0 <= k <= services@.len(),
            spec_pds_from(services@, 0) == spec_pds_from(services@, k as int),
        decreases services@.len() - k,
    {
        let service = &services[k];
        let id = match service.get("id") {
            Some(v) => match v.as_str() {
                Some(s) => s,
                None => {
                    return None;
                },
            },
            None => {
                return None;
            },
        };
        let ty = match service.get("type") {
            Some(v) => match v.as_str() {
                Some(s) => s,
                None => {
                    return None;
                },
            },
            None => {
                return None;
            },
        };
        let ep = match service.get("serviceEndpoint") {
            Some(v) => match v.as_str() {
                Some(s) => s,
                None => {
                    return None;
                },
            },
            None => {
                return None;
            },
        };
        if (str_ends_with(id.as_str(), "#atproto_pds") || str_eq(id.as_str(), "#atproto_pds"))
            && str_eq(ty.as_str(), "AtprotoPersonalDataServer") && (str_starts_with(
            ep.as_str(),
            "http://",
        ) || str_starts_with(ep.as_str(), "https://")) {
            return Some(ep.clone());
        }
        k += 1;
    }
    None
}

/// Five minutes, in microseconds: tokens this close to expiry are refreshed.
pub const REFRESH_BUFFER_US: i64 = 300000000;

/// Whether the access token must be refreshed before the next request: yes
/// when the expiry lies within the buffer of `now_us`, yes as a precaution
/// when no expiry is set but a refresh token exists; an unreadable expiry is
/// an error.
pub fn token_needs_refresh(oauth: &OAuthConfig, now_us: i64) -> (r: Result<
    bool,
    TimelineFilterError,
>)
    ensures
        match oauth.expires_at {
            Some(e) => match rfc3339_micros(e@) {
                Some(t) => r matches Ok(b) && b == (t - now_us < REFRESH_BUFFER_US),
                None => r is Err,
            },
            None => r matches Ok(b) && b == (oauth.refresh_token is Some),
        },
{
    match &oauth.expires_at {
        Some(e) => match crate::timeline_config::parse_rfc3339_micros(e.as_str()) {
            Some(t) => Ok((t as i128) - (now_us as i128) < REFRESH_BUFFER_US as i128),
            None => Err(TimelineFilterError::new("failed to parse token expiration")),
        },
        None => Ok(oauth.refresh_token.is_some()),
    }
}

/// What `refreshSession` returns.
#[derive(Debug)]
pub struct RefreshSession {
    pub access_jwt: String,
    pub refresh_jwt: String,
    pub did: String,
    pub handle: String,
    pub did_doc: Option<JsonValue>,
}

/// The name of what chrono prints, RFC 3339, for a time in microseconds.
pub uninterp spec fn rfc3339_of_micros(us: i64) -> Seq<char>;

/// Relies on chrono::DateTime::from_timestamp_micros and to_rfc3339: the
/// printed timestamp depends on the microsecond value alone.
#[verifier::external_body]
pub fn format_rfc3339(us: i64) -> (r: String)
    ensures
        r@ == rfc3339_of_micros(us),
{
    match chrono::DateTime::from_timestamp_micros(us) {
        Some(d) => d.to_rfc3339(),
        None => String::new(),
    }
}

/// Two hours, in microseconds: the lifetime assumed for a fresh token.
pub const TOKEN_LIFETIME_US: i64 = 7200000000;

/// Adopt a refresh response: refuse a mismatched DID; otherwise replace both
/// tokens, stamp the expiry two hours past `now_us`, and move to the PDS the
/// DID document advertises, if it advertises one.
pub fn apply_refresh_session(
    oauth: &OAuthConfig,
    expected_did: &str,
    session: &RefreshSession,
    now_us: i64,
) -> (r: Result<OAuthConfig, TimelineFilterError>)
    ensures
        session.did@ != expected_did@ ==> r is Err,
        session.did@ == expected_did@ ==> (r matches Ok(new_oauth) && {
            &&& new_oauth.access_token@ == session.access_jwt@
            &&& (new_oauth.refresh_token matches Some(rt) && rt@ == session.refresh_jwt@)
            &&& (new_oauth.expires_at matches Some(e) && e@ == rfc3339_of_micros(
                crate::timeline_storage::spec_add_saturating(now_us, TOKEN_LIFETIME_US),
            ))
            &&& new_oauth.pds_url@ == match session.did_doc {
                Some(doc) => match spec_extract_pds(doc) {
                    Some(ep) => ep,
                    None => oauth.pds_url@,
                },
                None => oauth.pds_url@,
            }
        }),
{
    if !str_eq(session.did.as_str(), expected_did) {
        return Err(TimelineFilterError::new("DID mismatch during token refresh"));
    }
    let pds_url = match &session.did_doc {
        Some(doc) => match extract_pds_endpoint(doc) {
            Some(ep) => ep,
            None => oauth.pds_url.clone(),
        },
        None => oauth.pds_url.clone(),
    };
    let expires_at = format_rfc3339(
        crate::timeline_storage::add_saturating(now_us, TOKEN_LIFETIME_US),
    );
    Ok(
        OAuthConfig {
            access_token: session.access_jwt.clone(),
            refresh_token: Some(session.refresh_jwt.clone()),
            expires_at: Some(expires_at),
            pds_url,
        },
    )
}

/// The number of entries that survive the filters.
pub open spec fn spec_kept_count(posts: Seq<FeedViewPost>, filters: FilterConfig) -> int {
    posts.filter(|p: FeedViewPost| spec_keep_post(p, filters)).len() as int
}

/// Index one page of timeline entries for a feed: filter them, plan each
/// survivor, and upsert the plans. Returns how many rows were new, how many
/// were already present, and how many entries the filters dropped.
#[verifier::loop_isolation(false)]
pub fn index_timeline_page(
    store: &mut IndexStore,
    feed_uri: &str,
    posts: &Vec<FeedViewPost>,
    filters: &FilterConfig,
    now: i64,
) -> (r: (u32, u32, u32))
    requires
        old(store).wf(),
        posts@.len() <= u32::MAX,
    ensures
        final(store).wf(),
        IndexStore::same_but_rows(*old(store), *final(store)),
        final(store).rows@.len() >= old(store).rows@.len(),
        forall|i: int|
            0 <= i < old(store).rows@.len() ==> final(store).rows@[i] == old(store).rows@[i],
        // Every surviving, plannable entry has its row afterwards.
        forall|j: int|
            0 <= j < posts@.len() && spec_keep_post(#[trigger] posts@[j], *filters) ==> match
                spec_plan_fields(posts@[j]) {
                Some(f) => has_row(final(store).rows@, feed_uri@, f.0),
                None => true,
            },
        // Every new row comes from some surviving entry's plan, with score 1.
        forall|i: int|
            old(store).rows@.len() <= i < final(store).rows@.len() ==> {
                let row = #[trigger] final(store).rows@[i];
                &&& row.score == 1
                &&& row.feed_id@ == feed_uri@
                &&& row.updated_at == now
                &&& exists|j: int|
                    0 <= j < posts@.len() && spec_keep_post(#[trigger] posts@[j], *filters)
                        && spec_plan_fields(posts@[j]) == Some(
                        (
                            row.uri@,
                            match row.repost_uri {
                                Some(ru) => Some(ru@),
                                None => None,
                            },
                            row.is_repost,
                            row.indexed_at,
                        ),
                    )
            },
        // The counts: new rows appended, duplicates skipped, entries blocked.
        r.0 == final(store).rows@.len() - old(store).rows@.len(),
        r.2 == posts@.len() - spec_kept_count(posts@, *filters),
{
    let mut new_posts: u32 = 0;
    let mut updated_posts: u32 = 0;
    let mut blocked: u32 = 0;
    let mut j: usize = 0;
    let ghost keep = |p: FeedViewPost| spec_keep_post(p, *filters);
    while j < posts.len()
        invariant
            store.wf(),
            IndexStore::same_but_rows(*old(store), *store),
            0 <= j <= posts@.len(),
            keep == (|p: FeedViewPost| spec_keep_post(p, *filters)),
            store.rows@.len() >= old(store).rows@.len(),
            forall|i: int|
                0 <= i < old(store).rows@.len() ==> store.rows@[i] == old(store).rows@[i],
            forall|j2: int|
                0 <= j2 < j && spec_keep_post(#[trigger] posts@[j2], *filters) ==> match
                    spec_plan_fields(posts@[j2]) {
                    Some(f) => has_row(store.rows@, feed_uri@, f.0),
                    None => true,
                },
            forall|i: int|
                old(store).rows@.len() <= i < store.rows@.len() ==> {
                    let row = #[trigger] store.rows@[i];
                    &&& row.score == 1
                    &&& row.feed_id@ == feed_uri@
                    &&& row.updated_at == now
                    &&& exists|j2: int|
                        0 <= j2 < posts@.len() && spec_keep_post(#[trigger] posts@[j2], *filters)
                            && spec_plan_fields(posts@[j2]) == Some(
                            (
                                row.uri@,
                                match row.repost_uri {
                                    Some(ru) => Some(ru@),
                                    None => None,
                                },
                                row.is_repost,
                                row.indexed_at,
                            ),
                        )
                },
            new_posts == store.rows@.len() - old(store).rows@.len(),
            blocked == j - posts@.subrange(0, j as int).filter(keep).len(),
            blocked <= j,
            new_posts <= j,
            updated_posts <= j,
        decreases posts@.len() - j,
    {
        proof {
            let pre = posts@.subrange(0, j as int);
            assert(posts@.subrange(0, j + 1) =~= pre.push(posts@[j as int]));
            reveal(Seq::filter);
            assert(pre.push(posts@[j as int]).drop_last() =~= pre);
            pre.lemma_filter_len(keep);
        }
        let p = &posts[j];
        let keep_it = match &p.reason {
            Some(re) => {
                if str_eq(re.reason_type.as_str(), "app.bsky.feed.defs#reasonRepost") {
                    let mut bl = false;
                    let mut t: usize = 0;
                    while t < filters.blocked_reposters.len()
                        invariant
                            0 <= t <= filters.blocked_reposters@.len(),
                            bl ==> spec_blocked(*filters, re.by.did@),
                            !bl ==> forall|t2: int|
                                0 <= t2 < t ==> (#[trigger] filters.blocked_reposters@[t2])@
                                    != re.by.did@,
                        decreases filters.blocked_reposters@.len() - t,
                    {
                        if str_eq(filters.blocked_reposters[t].as_str(), re.by.did.as_str()) {
                            bl = true;
                        }
                        t += 1;
                    }
                    !bl
                } else {
                    true
                }
            },
            None => true,
        };
        proof {
            assert(keep_it == keep(posts@[j as int]));
        }
        if !keep_it {
            blocked += 1;
        } else {
            match plan_post_index(p) {
                None => {},
                Some(plan) => {
                    let content = FeedContent {
                        feed_id: feed_uri.to_owned(),
                        uri: plan.uri,
                        indexed_at: plan.indexed_at,
                        score: 1,
                        is_repost: plan.is_repost,
                        repost_uri: plan.repost_uri,
                    };
                    let ghost pre_rows = store.rows@;
                    let is_new = store.feed_content_upsert(&content, now);
                    if is_new {
                        new_posts += 1;
                    } else {
                        updated_posts += 1;
                    }
                    proof {
                        if is_new {
                            assert(store.rows@[store.rows@.len() - 1] == crate::store::spec_row_of(
                                content,
                                now,
                            ));
                            assert(row_key(store.rows@[store.rows@.len() - 1]) == (
                                feed_uri@,
                                content.uri@,
                            ));
                        } else {
                            let w = choose|w: int|
                                0 <= w < pre_rows.len() && row_key(pre_rows[w]) == (
                                feed_uri@,
                                content.uri@,
                            );
                            assert(row_key(store.rows@[w]) == (feed_uri@, content.uri@));
                        }
                        assert(has_row(store.rows@, feed_uri@, content.uri@));
                        assert forall|j2: int|
                            0 <= j2 < j + 1 && spec_keep_post(
                                #[trigger] posts@[j2],
                                *filters,
                            ) implies match spec_plan_fields(posts@[j2]) {
                            Some(f) => has_row(store.rows@, feed_uri@, f.0),
                            None => true,
                        } by {
                            if j2 < j {
                                match spec_plan_fields(posts@[j2]) {
                                    Some(f) => {
                                        if spec_keep_post(posts@[j2], *filters) {
                                            assert(has_row(pre_rows, feed_uri@, f.0));
                                            let w = choose|w: int|
                                                0 <= w < pre_rows.len() && row_key(pre_rows[w])
                                                    == (feed_uri@, f.0);
                                            assert(row_key(store.rows@[w]) == (feed_uri@, f.0));
                                        }
                                    },
                                    None => {},
                                }
                            }
                        }
                    }
                },
            }
        }
        j += 1;
    }
    proof {
        assert(posts@.subrange(0, posts@.len() as int) =~= posts@);
    }
    (new_posts, updated_posts, blocked)
}

} // verus!
