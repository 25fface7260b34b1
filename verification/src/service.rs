use vstd::prelude::*;
use crate::cache::{spec_feed_lookup, InnerCache};
use crate::errors::TimelineFilterError;
use crate::feed_storage::{sorted_by_time_desc, spec_feed_contents};
use crate::store::{FeedContent, IndexStore};
use crate::strutil::{all_digits, spec_dec_value, spec_digits_value, str_starts_with};

verus! {

/// The query parameters of the skeleton endpoint.
#[derive(Debug)]
pub struct FeedParams {
    pub feed: Option<String>,
    pub limit: Option<u16>,
    pub cursor: Option<String>,
}

/// One skeleton item: a post URI, and the repost that surfaced it, if any.
#[derive(Debug)]
pub struct FeedItemView {
    pub post: String,
    pub reason: Option<SkeletonReasonRepost>,
}

/// The reason attached to a reposted skeleton item.
#[derive(Debug)]
pub struct SkeletonReasonRepost {
    pub reason_type: String,
    pub repost: String,
}

/// One page of a feed skeleton: the items, and the cursor for the next page
/// when there is one.
#[derive(Debug)]
pub struct FeedItemsView {
    pub cursor: Option<String>,
    pub feed: Vec<FeedItemView>,
}

/// The administrative form: an action and its subjects.
#[derive(Debug)]
pub struct AdminForm {
    pub action: Option<String>,
    pub did: Option<String>,
    pub reason: Option<String>,
    pub aturi: Option<String>,
    pub feed: Option<String>,
}

/// A digit string appended to keeps the value of its prefix digits.
proof fn lemma_digits_value_push(s: Seq<char>, c: char, k: int)
    requires
        0 <= k <= s.len(),
    ensures
        spec_digits_value(s.push(c), k) == spec_digits_value(s, k),
    decreases k,
{
    if k > 0 {
        lemma_digits_value_push(s, c, k - 1);
        assert(s.push(c)[k - 1] == s[k - 1]);
    }
}

/// One decimal digit as text.
fn digit_str(d: u32) -> (r: &'static str)
    requires
        d < 10,
    ensures
        r@.len() == 1,
        all_digits(r@),
        r@[0] as int - '0' as int == d,
{
    if d == 0 {
        proof {
            reveal_strlit("0");
        }
        "0"
    } else if d == 1 {
        proof {
            reveal_strlit("1");
        }
        "1"
    } else if d == 2 {
        proof {
            reveal_strlit("2");
        }
        "2"
    } else if d == 3 {
        proof {
            reveal_strlit("3");
        }
        "3"
    } else if d == 4 {
        proof {
            reveal_strlit("4");
        }
        "4"
    } else if d == 5 {
        proof {
            reveal_strlit("5");
        }
        "5"
    } else if d == 6 {
        proof {
            reveal_strlit("6");
        }
        "6"
    } else if d == 7 {
        proof {
            reveal_strlit("7");
        }
        "7"
    } else if d == 8 {
        proof {
            reveal_strlit("8");
        }
        "8"
    } else {
        proof {
            reveal_strlit("9");
        }
        "9"
    }
}

/// Print a number in decimal: all digits, the right value, and no leading
/// zero unless the number is zero.
pub fn u32_to_dec(v: u32) -> (r: String)
    ensures
        r@.len() >= 1,
        all_digits(r@),
        spec_dec_value(r@) == v,
        v > 0 ==> r@[0] != '0',
        v == 0 ==> r@.len() == 1,
    decreases v,
{
    if v < 10 {
        let d = digit_str(v);
        let r = d.to_owned();
        proof {
            assert(spec_digits_value(r@, 1) == spec_digits_value(r@, 0) * 10 + (r@[0] as int
                - '0' as int));
        }
        r
    } else {
        let mut s = u32_to_dec(v / 10);
        let ghost pre = s@;
        let d = digit_str(v % 10);
        s.append(d);
        proof {
            assert(s@ =~= pre.push(d@[0]));
            lemma_digits_value_push(pre, d@[0], pre.len() as int);
            assert(spec_digits_value(s@, s@.len() as int) == spec_digits_value(
                s@,
                s@.len() - 1,
            ) * 10 + (s@[s@.len() - 1] as int - '0' as int));
            assert(spec_dec_value(s@) == spec_dec_value(pre) * 10 + (v % 10));
            assert(forall|i: int|
                0 <= i < s@.len() ==> '0' <= #[trigger] s@[i] <= '9');
            assert(s@[0] == pre[0]);
        }
        s
    }
}

/// The offset or page index a cursor denotes: its decimal value when it is
/// one, zero otherwise or when there is none.
pub open spec fn spec_cursor_value(cursor: Option<String>) -> int {
    match cursor {
        None => 0,
        Some(c) => if c@.len() > 0 && all_digits(c@) && spec_dec_value(c@) <= u32::MAX {
            spec_dec_value(c@)
        } else {
            0
        },
    }
}

fn cursor_value(cursor: &Option<String>) -> (r: u32)
    ensures
        r == spec_cursor_value(*cursor),
{
    match cursor {
        None => 0,
        Some(c) => match crate::strutil::parse_u32_dec(c.as_str()) {
            Some(v) => v,
            None => 0,
        },
    }
}

/// The requested page size: the given limit clamped to one hundred, fifty
/// when none is given.
pub open spec fn spec_limit_value(limit: Option<u16>) -> int {
    match limit {
        None => 50,
        Some(l) => if l > 100 {
            100
        } else {
            l as int
        },
    }
}

/// The timeline page `view` is correct for offset `offset` and page size
/// `limit` against `all`, a newest-first ordering of exactly the rows of feed
/// `f`: the items are the window of `all` at the offset, a reposted row
/// carries its repost as reason, and the next cursor is the offset advanced
/// by the returned count, present exactly when something was returned.
pub open spec fn timeline_page_ok(
    all: Seq<FeedContent>,
    rows: Seq<crate::store::IndexedRow>,
    f: Seq<char>,
    offset: int,
    limit: int,
    view: FeedItemsView,
) -> bool {
    let lo = if offset <= all.len() {
        offset
    } else {
        all.len() as int
    };
    let hi = if offset + limit <= all.len() {
        offset + limit
    } else {
        all.len() as int
    };
    &&& all.to_multiset() == spec_feed_contents(rows, f).to_multiset()
    &&& sorted_by_time_desc(all)
    &&& view.feed@.len() == hi - lo
    &&& forall|i: int|
        0 <= i < hi - lo ==> {
            let row = all[lo + i];
            let item = #[trigger] view.feed@[i];
            &&& item.post == row.uri
            &&& match row.repost_uri {
                Some(ru) => item.reason matches Some(re) && re.repost == ru && re.reason_type@
                    == "app.bsky.feed.defs#skeletonReasonRepost"@,
                None => item.reason is None,
            }
        }
    &&& (hi - lo > 0 ==> (view.cursor matches Some(c) && all_digits(c@) && spec_dec_value(c@) == (
    if offset + (hi - lo) <= u32::MAX {
        offset + (hi - lo)
    } else {
        u32::MAX as int
    })))
    &&& (hi - lo == 0 ==> view.cursor is None)
}

/// The ranked page `view` is correct for page index `page` against the
/// cached pages `chunks` with page size `page_size`: the items are that
/// page's URIs without reasons, the next index is the cursor exactly when
/// the page is full, and an index past the pages yields an empty page with
/// no cursor.
pub open spec fn ranked_page_ok(
    chunks: Vec<Vec<String>>,
    page_size: u8,
    page: int,
    view: FeedItemsView,
) -> bool {
    if 0 <= page < chunks@.len() {
        let chunk = chunks@[page];
        &&& view.feed@.len() == chunk@.len()
        &&& forall|i: int|
            0 <= i < chunk@.len() ==> (#[trigger] view.feed@[i]).post == chunk@[i]
                && view.feed@[i].reason is None
        &&& (chunk@.len() == page_size && page < u32::MAX ==> (view.cursor matches Some(c)
            && all_digits(c@) && spec_dec_value(c@) == page + 1))
        &&& (chunk@.len() != page_size ==> view.cursor is None)
    } else {
        view.feed@.len() == 0 && view.cursor is None
    }
}

/// Serve one page of a feed skeleton. A missing `feed` parameter is an
/// error. A feed with ranked pages in the cache is served from them: the
/// cursor is a page index, and the next cursor appears exactly when the page
/// is full. Any other feed is served from the index, newest first: the
/// cursor is a row offset, and the next cursor appears exactly when the page
/// is nonempty; a reposted row carries its repost as the reason.
#[verifier::loop_isolation(false)]
pub fn handle_get_feed_skeleton(
    store: &IndexStore,
    cache: &InnerCache,
    params: &FeedParams,
) -> (r: Result<FeedItemsView, TimelineFilterError>)
    requires
        cache.wf(),
    ensures
        params.feed is None ==> r is Err,
        (params.feed is Some && spec_feed_lookup(cache.cached_feeds@, params.feed.unwrap()@)
            is Some) ==> (r matches Ok(view) && ranked_page_ok(
            spec_feed_lookup(cache.cached_feeds@, params.feed.unwrap()@).unwrap(),
            cache.page_size,
            spec_cursor_value(params.cursor),
            view,
        )),
        (params.feed is Some && spec_feed_lookup(cache.cached_feeds@, params.feed.unwrap()@)
            is None) ==> (r matches Ok(view) && exists|all: Seq<FeedContent>|
            #[trigger] timeline_page_ok(
                all,
                store.rows@,
                params.feed.unwrap()@,
                spec_cursor_value(params.cursor),
                spec_limit_value(params.limit),
                view,
            )),
{
    let feed_uri = match &params.feed {
        None => {
            return Err(TimelineFilterError::new("feed parameter is required"));
        },
        Some(f) => f,
    };
    match cache.get_posts_page(feed_uri.as_str(), params) {
        Some(view) => Ok(view),
        None => {
            let offset = cursor_value(&params.cursor);
            let limit: u32 = match params.limit {
                None => 50,
                Some(l) => if l > 100 {
                    100
                } else {
                    l as u32
                },
            };
            let posts = store.get_feed_posts(feed_uri.as_str(), limit, offset);
            let ghost returned = posts@;
            let mut items: Vec<FeedItemView> = Vec::new();
            let mut i: usize = 0;
            while i < posts.len()
                invariant
                    0 <= i <= posts@.len(),
                    posts@ == returned,
                    items@.len() == i,
                    forall|j: int|
                        0 <= j < i ==> {
                            let row = returned[j];
                            let item = #[trigger] items@[j];
                            &&& item.post == row.uri
                            &&& match row.repost_uri {
                                Some(ru) => item.reason matches Some(re) && re.repost == ru
                                    && re.reason_type@
                                    == "app.bsky.feed.defs#skeletonReasonRepost"@,
                                None => item.reason is None,
                            }
                        },
                decreases posts@.len() - i,
            {
                let row = &posts[i];
                let reason = match &row.repost_uri {
                    Some(ru) => Some(
                        SkeletonReasonRepost {
                            reason_type: String::from_str(
                                "app.bsky.feed.defs#skeletonReasonRepost",
                            ),
                            repost: ru.clone(),
                        },
                    ),
                    None => None,
                };
                items.push(FeedItemView { post: row.uri.clone(), reason });
                i += 1;
            }
            proof {
                assert(limit == spec_limit_value(params.limit));
            }
            let cursor: Option<String> = if posts.len() == 0 {
                None
            } else {
                let returned_len: u32 = if posts.len() <= u32::MAX as usize {
                    posts.len() as u32
                } else {
                    u32::MAX
                };
                let next: u32 = if offset > u32::MAX - returned_len {
                    u32::MAX
                } else {
                    offset + returned_len
                };
                Some(u32_to_dec(next))
            };
            let view = FeedItemsView { cursor, feed: items };
            proof {
                let gall = choose|all: Seq<FeedContent>|
                    {
                        &&& #[trigger] all.to_multiset() == spec_feed_contents(
                            store.rows@,
                            feed_uri@,
                        ).to_multiset()
                        &&& sorted_by_time_desc(all)
                        &&& posts@ == all.subrange(
                            if offset <= all.len() {
                                offset as int
                            } else {
                                all.len() as int
                            },
                            if offset + limit <= all.len() {
                                offset + limit
                            } else {
                                all.len() as int
                            },
                        )
                    };
                let lo = if offset <= gall.len() {
                    offset as int
                } else {
                    gall.len() as int
                };
                let hi = if offset + limit <= gall.len() {
                    offset + limit
                } else {
                    gall.len() as int
                };
                assert(posts@.len() == hi - lo);
                assert forall|i: int| 0 <= i < hi - lo implies posts@[i] == gall[lo + i] by {
                    assert(posts@[i] == gall.subrange(lo, hi)[i]);
                }
                assert(timeline_page_ok(
                    gall,
                    store.rows@,
                    feed_uri@,
                    spec_cursor_value(params.cursor),
                    spec_limit_value(params.limit),
                    view,
                ));
            }
            Ok(view)
        },
    }
}

impl InnerCache {
    /// Serve one ranked page, when this cache holds the feed: the page at the
    /// cursor's index, with the next index as cursor exactly when the page is
    /// full; an index past the pages yields an empty page without a cursor.
    #[verifier::loop_isolation(false)]
    pub fn get_posts_page(&self, feed_id: &str, params: &FeedParams) -> (r: Option<FeedItemsView>)
        requires
            self.wf(),
        ensures
            match spec_feed_lookup(self.cached_feeds@, feed_id@) {
                None => r is None,
                Some(chunks) => r matches Some(view) && ranked_page_ok(
                    chunks,
                    self.page_size,
                    spec_cursor_value(params.cursor),
                    view,
                ),
            },
    {
        let page = cursor_value(&params.cursor);
        let mut k: usize = 0;
        let n = self.cached_feeds.len();
        while k < n
            invariant
                n == self.cached_feeds@.len(),
                0 <= k <= n,
                forall|j: int| 0 <= j < k ==> (#[trigger] self.cached_feeds@[j]).0@ != feed_id@,
            decreases n - k,
        {
            if crate::strutil::str_eq(self.cached_feeds[k].0.as_str(), feed_id) {
                proof {
                    crate::cache::lemma_feed_lookup(self.cached_feeds@, k as int);
                }
                let chunks = &self.cached_feeds[k].1;
                if (page as usize) < chunks.len() {
                    let chunk = &chunks[page as usize];
                    let mut items: Vec<FeedItemView> = Vec::new();
                    let mut i: usize = 0;
                    while i < chunk.len()
                        invariant
                            0 <= i <= chunk@.len(),
                            items@.len() == i,
                            forall|j: int|
                                0 <= j < i ==> (#[trigger] items@[j]).post == chunk@[j]
                                    && items@[j].reason is None,
                        decreases chunk@.len() - i,
                    {
                        items.push(FeedItemView { post: chunk[i].clone(), reason: None });
                        i += 1;
                    }
                    let cursor: Option<String> = if chunk.len() == self.page_size as usize {
                        Some(u32_to_dec(if page < u32::MAX {
                            page + 1
                        } else {
                            page
                        }))
                    } else {
                        None
                    };
                    return Some(FeedItemsView { cursor, feed: items });
                } else {
                    return Some(FeedItemsView { cursor: None, feed: Vec::new() });
                }
            }
            k += 1;
        }
        None
    }
}

/// The host part of the external base: the scheme stripped, trailing slashes
/// trimmed.
pub open spec fn spec_strip_scheme(s: Seq<char>) -> Seq<char> {
    if "https://"@.is_prefix_of(s) {
        s.skip(8)
    } else if "http://"@.is_prefix_of(s) {
        s.skip(7)
    } else {
        s
    }
}

pub open spec fn spec_trim_trailing_slash(s: Seq<char>) -> Seq<char>
    decreases s.len(),
{
    if s.len() > 0 && s[s.len() - 1] == '/' {
        spec_trim_trailing_slash(s.drop_last())
    } else {
        s
    }
}

/// Strip the scheme off the external base.
fn strip_scheme(s: &str) -> (r: String)
    ensures
        r@ == spec_strip_scheme(s@),
{
    proof {
        reveal_strlit("https://");
        reveal_strlit("http://");
    }
    if str_starts_with(s, "https://") {
        let r = s.substring_char(8, s.unicode_len()).to_owned();
        proof {
            assert(r@ =~= s@.skip(8));
        }
        r
    } else if str_starts_with(s, "http://") {
        let r = s.substring_char(7, s.unicode_len()).to_owned();
        proof {
            assert(r@ =~= s@.skip(7));
        }
        r
    } else {
        let r = s.substring_char(0, s.unicode_len()).to_owned();
        proof {
            assert(r@ =~= s@);
        }
        r
    }
}

/// Trim trailing slashes off the host.
#[verifier::loop_isolation(false)]
fn trim_trailing_slash(s: &str) -> (r: String)
    ensures
        r@ == spec_trim_trailing_slash(s@),
{
    let len = s.unicode_len();
    let mut e = len;
    proof {
        assert(s@.subrange(0, len as int) =~= s@);
    }
    while e > 0
        invariant
            len == s@.len(),
            0 <= e <= len,
            spec_trim_trailing_slash(s@) == spec_trim_trailing_slash(s@.subrange(0, e as int)),
        decreases e,
    {
        if s.get_char(e - 1) != '/' {
            break ;
        }
        proof {
            assert(s@.subrange(0, e as int).drop_last() =~= s@.subrange(0, e - 1));
        }
        e -= 1;
    }
    proof {
        if e > 0 {
            assert(spec_trim_trailing_slash(s@.subrange(0, e as int)) == s@.subrange(
                0,
                e as int,
            ));
        } else {
            assert(s@.subrange(0, 0) =~= Seq::<char>::empty());
        }
    }
    let r = s.substring_char(0, e).to_owned();
    r
}

/// What `describeFeedGenerator` returns: the service DID and the feeds.
#[derive(Debug)]
pub struct DescribeView {
    pub did: String,
    pub feeds: Vec<String>,
}

/// Describe the generator: its `did:web` identity from the external base,
/// and the union of the ranked feeds and the configured timeline feeds.
#[verifier::loop_isolation(false)]
pub fn describe_feed_generator(
    external_base: &str,
    ranked_feeds: &Vec<String>,
    store: &IndexStore,
) -> (r: DescribeView)
    ensures
        r.did@ == "did:web:"@ + spec_trim_trailing_slash(spec_strip_scheme(external_base@)),
        r.feeds@.len() == ranked_feeds@.len() + store.user_configs@.len(),
        forall|i: int|
            0 <= i < ranked_feeds@.len() ==> (#[trigger] r.feeds@[i]) == ranked_feeds@[i],
        forall|i: int|
            0 <= i < store.user_configs@.len() ==> (#[trigger] r.feeds@[ranked_feeds@.len() + i])
                == store.user_configs@[i].feed_uri,
{
    let stripped = strip_scheme(external_base);
    let hostname = trim_trailing_slash(stripped.as_str());
    let mut did = String::from_str("did:web:");
    did.append(hostname.as_str());
    let mut feeds = crate::strutil::clone_string_vec(ranked_feeds);
    let timeline_uris = store.get_all_feed_uris();
    let mut i: usize = 0;
    while i < timeline_uris.len()
        invariant
            0 <= i <= timeline_uris@.len(),
            timeline_uris@.len() == store.user_configs@.len(),
            forall|j: int|
                0 <= j < timeline_uris@.len() ==> (#[trigger] timeline_uris@[j])
                    == store.user_configs@[j].feed_uri,
            feeds@.len() == ranked_feeds@.len() + i,
            forall|j: int|
                0 <= j < ranked_feeds@.len() ==> (#[trigger] feeds@[j]) == ranked_feeds@[j],
            forall|j: int|
                0 <= j < i ==> (#[trigger] feeds@[ranked_feeds@.len() + j])
                    == store.user_configs@[j].feed_uri,
        decreases timeline_uris@.len() - i,
    {
        feeds.push(timeline_uris[i].clone());
        i += 1;
    }
    DescribeView { did, feeds }
}

/// What the well-known DID document advertises.
#[derive(Debug)]
pub struct WellKnownView {
    pub id: String,
    pub service_endpoint: String,
}

/// The well-known DID document's fields: the `did:web` identity, and the
/// external base as service endpoint, given a scheme if it has none.
pub fn well_known_doc(external_base: &str) -> (r: WellKnownView)
    ensures
        r.id@ == "did:web:"@ + spec_strip_scheme(external_base@),
        r.service_endpoint@ == (if "http://"@.is_prefix_of(external_base@) || "https://"@.is_prefix_of(
            external_base@,
        ) {
            external_base@
        } else {
            "https://"@ + external_base@
        }),
{
    let hostname = strip_scheme(external_base);
    let mut id = String::from_str("did:web:");
    id.append(hostname.as_str());
    let service_endpoint = if str_starts_with(external_base, "http://") || str_starts_with(
        external_base,
        "https://",
    ) {
        external_base.to_owned()
    } else {
        let mut e = String::from_str("https://");
        e.append(external_base);
        e
    };
    WellKnownView { id, service_endpoint }
}

/// An administrative action, decoded from the form.
#[derive(Debug)]
pub enum AdminAction {
    Purge { aturi: String, feed: Option<String> },
    Deny { did: String, reason: String },
    Allow { did: String },
}

/// Decode the form: `purge` needs an AT-URI and takes an optional feed scope
/// (an empty scope counts as none); `deny` needs a DID and defaults its
/// reason; `allow` needs a DID. Anything else does nothing.
pub fn admin_action_of(form: &AdminForm) -> (r: Option<AdminAction>)
    ensures
        match r {
            Some(a) => match a {
                AdminAction::Purge { aturi, feed } => {
                    &&& form.action matches Some(act) && act@ == "purge"@
                    &&& form.aturi matches Some(u) && u == aturi
                    &&& feed == (match form.feed {
                        Some(f) => if f@.len() > 0 {
                            Some(f)
                        } else {
                            None
                        },
                        None => None,
                    })
                },
                AdminAction::Deny { did, reason } => {
                    &&& form.action matches Some(act) && act@ == "deny"@
                    &&& form.did matches Some(d) && d == did
                    &&& reason@ == (match form.reason {
                        Some(re) => re@,
                        None => "n/a"@,
                    })
                },
                AdminAction::Allow { did } => {
                    &&& form.action matches Some(act) && act@ == "allow"@
                    &&& form.did matches Some(d) && d == did
                },
            },
            None => true,
        },
{
    match &form.action {
        None => None,
        Some(act) => {
            if crate::strutil::str_eq(act.as_str(), "purge") {
                match &form.aturi {
                    Some(u) => {
                        let feed = match &form.feed {
                            Some(f) => if f.unicode_len() > 0 {
                                Some(f.clone())
                            } else {
                                None
                            },
                            None => None,
                        };
                        Some(AdminAction::Purge { aturi: u.clone(), feed })
                    },
                    None => None,
                }
            } else if crate::strutil::str_eq(act.as_str(), "deny") {
                match &form.did {
                    Some(d) => Some(
                        AdminAction::Deny {
                            did: d.clone(),
                            reason: match &form.reason {
                                Some(re) => re.clone(),
                                None => String::from_str("n/a"),
                            },
                        },
                    ),
                    None => None,
                }
            } else if crate::strutil::str_eq(act.as_str(), "allow") {
                match &form.did {
                    Some(d) => Some(AdminAction::Allow { did: d.clone() }),
                    None => None,
                }
            } else {
                None
            }
        },
    }
}

/// Apply an administrative action to the index.
pub fn apply_admin_action(store: &mut IndexStore, action: AdminAction, now: i64)
    requires
        old(store).wf(),
    ensures
        final(store).wf(),
        match action {
            AdminAction::Purge { aturi, feed } => final(store).rows@ == old(store).rows@.filter(
                |r: crate::store::IndexedRow|
                    !(r.uri@ == aturi@ && (feed is None || r.feed_id@ == feed.unwrap()@)),
            ) && IndexStore::same_but_rows(*old(store), *final(store)),
            AdminAction::Deny { did, reason } => final(store).is_denied(did@)
                && final(store).rows == old(store).rows,
            AdminAction::Allow { did } => !final(store).is_denied(did@)
                && final(store).rows == old(store).rows,
        },
{
    match action {
        AdminAction::Purge { aturi, feed } => {
            store.feed_content_purge_aturi(aturi.as_str(), &feed);
        },
        AdminAction::Deny { did, reason } => {
            store.denylist_upsert(did.as_str(), reason.as_str(), now);
        },
        AdminAction::Allow { did } => {
            store.denylist_remove(did.as_str());
        },
    }
}

} // verus!
