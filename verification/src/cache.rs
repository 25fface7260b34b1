use vstd::prelude::*;
use fnv_rs::FnvHasher;
use crate::strutil::str_eq;

verus! {

/// A row ranked for a popular feed: an order-preserving key and the post URI.
#[derive(Debug)]
pub struct RankedPost {
    pub key: u64,
    pub uri: String,
}

/// The pages of one feed, concatenated in ascending page index.
pub open spec fn pages_concat(cs: Seq<Vec<String>>) -> Seq<String>
    decreases cs.len(),
{
    if cs.len() == 0 {
        Seq::empty()
    } else {
        cs[0]@ + pages_concat(cs.drop_first())
    }
}

proof fn lemma_pages_concat_push(cs: Seq<Vec<String>>, c: Vec<String>)
    ensures
        pages_concat(cs.push(c)) == pages_concat(cs) + c@,
    decreases cs.len(),
{
    let p = cs.push(c);
    if cs.len() == 0 {
        assert(p[0] == c);
        assert(p.drop_first() =~= cs);
        assert(pages_concat(cs) == Seq::<String>::empty());
        assert(c@ + Seq::<String>::empty() =~= Seq::<String>::empty() + c@);
    } else {
        assert(p.drop_first() =~= cs.drop_first().push(c));
        lemma_pages_concat_push(cs.drop_first(), c);
        assert(p[0] == cs[0]);
        assert(pages_concat(p) == cs[0]@ + (pages_concat(cs.drop_first()) + c@));
        assert(pages_concat(cs) == cs[0]@ + pages_concat(cs.drop_first()));
        assert(cs[0]@ + (pages_concat(cs.drop_first()) + c@) =~= (cs[0]@ + pages_concat(
            cs.drop_first(),
        )) + c@);
    }
}

/// Split an ordered URI list into pages: every page but the last holds
/// exactly `page_size` URIs, the last between one and `page_size`, and the
/// pages concatenated in ascending index give back the whole list, with no
/// duplicate and no gap.
#[verifier::loop_isolation(false)]
pub fn chunk_pages(posts: &Vec<String>, page_size: usize) -> (r: Vec<Vec<String>>)
    requires
        page_size >= 1,
    ensures
        pages_concat(r@) == posts@,
        forall|i: int| 0 <= i < r@.len() - 1 ==> (#[trigger] r@[i])@.len() == page_size,
        forall|i: int| 0 <= i < r@.len() ==> 0 < (#[trigger] r@[i])@.len() <= page_size,
        r@.len() == 0 <==> posts@.len() == 0,
{
    let mut out: Vec<Vec<String>> = Vec::new();
    let mut cur: Vec<String> = Vec::new();
    let mut i: usize = 0;
    while i < posts.len()
        invariant
            0 <= i <= posts@.len(),
            cur@.len() < page_size,
            pages_concat(out@) + cur@ == posts@.subrange(0, i as int),
            forall|k: int| 0 <= k < out@.len() ==> (#[trigger] out@[k])@.len() == page_size,
            out@.len() > 0 ==> i > 0,
        decreases posts@.len() - i,
    {
        cur.push(posts[i].clone());
        proof {
            assert(posts@.subrange(0, i + 1) =~= posts@.subrange(0, i as int).push(
                posts@[i as int],
            ));
            assert(pages_concat(out@) + cur@ =~= posts@.subrange(0, i + 1));
        }
        if cur.len() == page_size {
            proof {
                lemma_pages_concat_push(out@, cur);
            }
            out.push(cur);
            cur = Vec::new();
            proof {
                assert(pages_concat(out@) + cur@ =~= pages_concat(out@));
            }
        }
        i += 1;
    }
    proof {
        assert(posts@.subrange(0, posts@.len() as int) =~= posts@);
    }
    if cur.len() > 0 {
        proof {
            lemma_pages_concat_push(out@, cur);
        }
        out.push(cur);
        proof {
            assert(pages_concat(out@) =~= posts@);
        }
    } else {
        proof {
            assert(pages_concat(out@) + cur@ =~= pages_concat(out@));
        }
    }
    out
}

/// Order ranked rows by key, largest first; the rows themselves are exactly
/// the given ones.
#[verifier::loop_isolation(false)]
pub fn sort_ranked_desc(items: Vec<RankedPost>) -> (r: Vec<RankedPost>)
    ensures
        r@.to_multiset() == items@.to_multiset(),
        r@.len() == items@.len(),
        forall|i: int, j: int|
            0 <= i < j < r@.len() ==> (#[trigger] r@[i]).key >= (#[trigger] r@[j]).key,
{
    broadcast use vstd::seq_lib::group_to_multiset_ensures;

    let mut input = items;
    let mut out: Vec<RankedPost> = Vec::new();
    proof {
        assert(out@.to_multiset().add(input@.to_multiset()) =~= items@.to_multiset());
    }
    while input.len() > 0
        invariant
            out@.to_multiset().add(input@.to_multiset()) == items@.to_multiset(),
            out@.len() + input@.len() == items@.len(),
            forall|i: int, j: int|
                0 <= i < j < out@.len() ==> (#[trigger] out@[i]).key >= (#[trigger] out@[j]).key,
            forall|i: int, j: int|
                0 <= i < out@.len() && 0 <= j < input@.len() ==> (#[trigger] out@[i]).key >= (
                #[trigger] input@[j]).key,
        decreases input@.len(),
    {
        let mut mi: usize = 0;
        let mut k: usize = 1;
        while k < input.len()
            invariant
                input@.len() > 0,
                0 <= mi < input@.len(),
                1 <= k <= input@.len(),
                forall|j: int| 0 <= j < k ==> (#[trigger] input@[j]).key <= input@[mi as int].key,
            decreases input@.len() - k,
        {
            if input[k].key > input[mi].key {
                mi = k;
            }
            k += 1;
        }
        let ghost pre_out = out@;
        let ghost pre_in = input@;
        let x = input.remove(mi);
        out.push(x);
        proof {
            assert(pre_in.remove(mi as int).to_multiset() =~= pre_in.to_multiset().remove(
                pre_in[mi as int],
            ));
            assert(pre_out.push(x).to_multiset() =~= pre_out.to_multiset().insert(x));
            assert(out@.to_multiset().add(input@.to_multiset()) =~= items@.to_multiset());
            assert forall|i: int, j: int|
                0 <= i < out@.len() && 0 <= j < input@.len() implies (#[trigger] out@[i]).key >= (
            #[trigger] input@[j]).key by {
                let orig = if j < mi {
                    j
                } else {
                    j + 1
                };
                assert(input@[j] == pre_in[orig]);
                if i < out@.len() - 1 {
                    assert(out@[i] == pre_out[i]);
                } else {
                    assert(out@[i] == x);
                }
            }
        }
    }
    proof {
        assert(input@.to_multiset().len() == 0);
        assert(out@.to_multiset().add(input@.to_multiset()) =~= out@.to_multiset());
    }
    out
}

/// Project the URIs of ranked rows, in order.
pub fn ranked_uris(items: &Vec<RankedPost>) -> (r: Vec<String>)
    ensures
        r@.len() == items@.len(),
        forall|i: int| 0 <= i < r@.len() ==> (#[trigger] r@[i]) == items@[i].uri,
{
    let mut out: Vec<String> = Vec::new();
    let mut i: usize = 0;
    while i < items.len()
        invariant
            0 <= i <= items@.len(),
            out@.len() == i,
            forall|j: int| 0 <= j < i ==> (#[trigger] out@[j]) == items@[j].uri,
        decreases items@.len() - i,
    {
        out.push(items[i].uri.clone());
        i += 1;
    }
    out
}

/// The age of a row in whole hours at `now_s` (seconds since the epoch),
/// clamped to at least one hour. The row's time is in microseconds.
pub open spec fn spec_age_hours(indexed_at_us: int, now_s: int) -> int {
    let secs = indexed_at_us / 1000000;
    let h = (now_s - secs) / 3600 + 1;
    if h < 1 {
        1
    } else {
        h
    }
}

pub fn age_in_hours(indexed_at_us: i64, now_s: i64) -> (r: i64)
    ensures
        r == spec_age_hours(indexed_at_us as int, now_s as int),
        r >= 1,
{
    let secs: i64 = if indexed_at_us >= 0 {
        ((indexed_at_us as u64) / 1000000u64) as i64
    } else {
        let p: u128 = (-(indexed_at_us as i128)) as u128;
        let q: u128 = (p + 999999) / 1000000;
        proof {
            assert((-(q as int)) == (indexed_at_us as int) / 1000000) by (nonlinear_arith)
                requires
                    q == ((-(indexed_at_us as int)) + 999999) / 1000000,
                    indexed_at_us < 0,
            ;
        }
        (-(q as i128)) as i64
    };
    let d: i128 = (now_s as i128) - (secs as i128);
    if d <= 0 {
        proof {
            assert(spec_age_hours(indexed_at_us as int, now_s as int) == 1) by (nonlinear_arith)
                requires
                    (now_s as int) - (indexed_at_us as int) / 1000000 <= 0,
                    secs == (indexed_at_us as int) / 1000000,
            ;
        }
        1
    } else {
        let h: i128 = (((d as u128) / 3600) as i128) + 1;
        proof {
            assert(h == (now_s as int - secs as int) / 3600 + 1);
            assert(h >= 1);
            assert(h <= i64::MAX);
        }
        h as i64
    }
}

/// The name of the hex digest that fnv_rs prints for the FNV-1a 64-bit hash
/// of a string's bytes.
pub uninterp spec fn fnv64_hex_of(s: Seq<char>) -> Seq<char>;

/// Relies on fnv_rs::Fnv64::hash: the FNV-1a 64-bit digest of the bytes,
/// printed as hex; it depends on the input bytes alone.
#[verifier::external_body]
pub fn fnv64_hex(s: &str) -> (r: String)
    ensures
        r@ == fnv64_hex_of(s@),
{
    format!("{}", fnv_rs::Fnv64::hash(s.as_bytes()))
}

/// The file name under which one feed's pages are persisted.
pub fn snapshot_file_name(feed_uri: &str) -> (r: String)
    ensures
        r@ == fnv64_hex_of(feed_uri@) + ".json"@,
{
    let mut name = fnv64_hex(feed_uri);
    name.append(".json");
    name
}

/// The in-memory scored pages: for each feed URI, the ordered URI pages.
pub struct InnerCache {
    pub page_size: u8,
    pub cached_feeds: Vec<(String, Vec<Vec<String>>)>,
}

/// The pages stored for a feed, if any.
pub open spec fn spec_feed_lookup(
    cf: Seq<(String, Vec<Vec<String>>)>,
    feed: Seq<char>,
) -> Option<Vec<Vec<String>>> {
    if exists|i: int| 0 <= i < cf.len() && cf[i].0@ == feed {
        let i = choose|i: int| 0 <= i < cf.len() && cf[i].0@ == feed;
        Some(cf[i].1)
    } else {
        None
    }
}

impl InnerCache {
    /// Feed keys are unique.
    pub open spec fn wf(self) -> bool {
        forall|i: int, j: int|
            0 <= i < j < self.cached_feeds@.len() ==> (#[trigger] self.cached_feeds@[i]).0@ != (
            #[trigger] self.cached_feeds@[j]).0@
    }

    pub fn new(page_size: u8) -> (r: InnerCache)
        ensures
            r.wf(),
            r.page_size == page_size,
            r.cached_feeds@.len() == 0,
    {
        InnerCache { page_size, cached_feeds: Vec::new() }
    }
}

impl Default for InnerCache {
    /// An empty cache with the usual page size of twenty.
    fn default() -> (r: InnerCache)
        ensures
            r.wf(),
            r.page_size == 20,
            r.cached_feeds@.len() == 0,
    {
        InnerCache { page_size: 20, cached_feeds: Vec::new() }
    }
}

impl InnerCache {

    /// One page of a feed: the page at a valid index, nothing for an unknown
    /// feed or an index past the last page.
    #[verifier::loop_isolation(false)]
    pub fn get_posts(&self, feed_id: &str, page: usize) -> (r: Option<Vec<String>>)
        requires
            self.wf(),
        ensures
            match spec_feed_lookup(self.cached_feeds@, feed_id@) {
                None => r is None,
                Some(chunks) => if page < chunks@.len() {
                    r matches Some(v) && v@ == chunks@[page as int]@
                } else {
                    r is None
                },
            },
    {
        let n = self.cached_feeds.len();
        let mut i: usize = 0;
        while i < n
            invariant
                n == self.cached_feeds@.len(),
                0 <= i <= n,
                forall|j: int| 0 <= j < i ==> (#[trigger] self.cached_feeds@[j]).0@ != feed_id@,
            decreases n - i,
        {
            if str_eq(self.cached_feeds[i].0.as_str(), feed_id) {
                proof {
                    lemma_feed_lookup(self.cached_feeds@, i as int);
                }
                let chunks = &self.cached_feeds[i].1;
                if page < chunks.len() {
                    return Some(crate::strutil::clone_string_vec(&chunks[page]));
                } else {
                    return None;
                }
            }
            i += 1;
        }
        None
    }

    /// Replace a feed's pages with the given posts split into pages; other
    /// feeds keep theirs.
    #[verifier::loop_isolation(false)]
    pub fn update_feed(&mut self, feed_id: &str, posts: &Vec<String>)
        requires
            old(self).wf(),
            old(self).page_size >= 1,
        ensures
            final(self).wf(),
            final(self).page_size == old(self).page_size,
            (match spec_feed_lookup(final(self).cached_feeds@, feed_id@) {
                Some(chunks) => {
                    &&& pages_concat(chunks@) == posts@
                    &&& forall|i: int|
                        0 <= i < chunks@.len() - 1 ==> (#[trigger] chunks@[i])@.len() == old(
                            self,
                        ).page_size
                    &&& forall|i: int|
                        0 <= i < chunks@.len() ==> 0 < (#[trigger] chunks@[i])@.len() <= old(
                            self,
                        ).page_size
                    &&& chunks@.len() == 0 <==> posts@.len() == 0
                },
                None => false,
            }),
            forall|f: Seq<char>|
                f != feed_id@ ==> #[trigger] spec_feed_lookup(final(self).cached_feeds@, f)
                    == spec_feed_lookup(old(self).cached_feeds@, f),
    {
        let chunks = chunk_pages(posts, self.page_size as usize);
        let n = self.cached_feeds.len();
        let mut i: usize = 0;
        while i < n
            invariant
                *self == *old(self),
                n == self.cached_feeds@.len(),
                0 <= i <= n,
                forall|j: int| 0 <= j < i ==> (#[trigger] self.cached_feeds@[j]).0@ != feed_id@,
            decreases n - i,
        {
            if str_eq(self.cached_feeds[i].0.as_str(), feed_id) {
                let entry = &mut self.cached_feeds[i];
                entry.1 = chunks;
                proof {
                    assert forall|i2: int, j2: int|
                        0 <= i2 < j2 < self.cached_feeds@.len() implies (
                    #[trigger] self.cached_feeds@[i2]).0@ != (
                    #[trigger] self.cached_feeds@[j2]).0@ by {
                        assert(self.cached_feeds@[i2].0@ == old(self).cached_feeds@[i2].0@);
                        assert(self.cached_feeds@[j2].0@ == old(self).cached_feeds@[j2].0@);
                    }
                    lemma_feed_lookup(self.cached_feeds@, i as int);
                    assert forall|f: Seq<char>|
                        f != feed_id@ implies #[trigger] spec_feed_lookup(self.cached_feeds@, f)
                        == spec_feed_lookup(old(self).cached_feeds@, f) by {
                        lemma_feed_lookup_frame(
                            old(self).cached_feeds@,
                            self.cached_feeds@,
                            f,
                        );
                    }
                }
                return ;
            }
            i += 1;
        }
        self.cached_feeds.push((feed_id.to_owned(), chunks));
        proof {
            assert forall|i2: int, j2: int|
                0 <= i2 < j2 < self.cached_feeds@.len() implies (
            #[trigger] self.cached_feeds@[i2]).0@ != (#[trigger] self.cached_feeds@[j2]).0@ by {
                if j2 == self.cached_feeds@.len() - 1 {
                    assert(self.cached_feeds@[i2] == old(self).cached_feeds@[i2]);
                } else {
                    assert(self.cached_feeds@[i2] == old(self).cached_feeds@[i2]);
                    assert(self.cached_feeds@[j2] == old(self).cached_feeds@[j2]);
                }
            }
            lemma_feed_lookup(self.cached_feeds@, self.cached_feeds@.len() - 1);
            assert forall|f: Seq<char>|
                f != feed_id@ implies #[trigger] spec_feed_lookup(self.cached_feeds@, f)
                == spec_feed_lookup(old(self).cached_feeds@, f) by {
                lemma_feed_lookup_frame_push(old(self).cached_feeds@, self.cached_feeds@, f);
            }
        }
    }
}

/// With unique keys, the lookup of the key at `i` yields the entry at `i`.
pub(crate) proof fn lemma_feed_lookup(cf: Seq<(String, Vec<Vec<String>>)>, i: int)
    requires
        forall|a: int, b: int|
            0 <= a < b < cf.len() ==> (#[trigger] cf[a]).0@ != (#[trigger] cf[b]).0@,
        0 <= i < cf.len(),
    ensures
        spec_feed_lookup(cf, cf[i].0@) == Some(cf[i].1),
{
    let f = cf[i].0@;
    assert(exists|j: int| 0 <= j < cf.len() && cf[j].0@ == f);
    let j = choose|j: int| 0 <= j < cf.len() && cf[j].0@ == f;
    if i < j {
        assert(cf[i].0@ != cf[j].0@);
    }
    if j < i {
        assert(cf[j].0@ != cf[i].0@);
    }
}

proof fn lemma_feed_lookup_frame(
    a: Seq<(String, Vec<Vec<String>>)>,
    b: Seq<(String, Vec<Vec<String>>)>,
    f: Seq<char>,
)
    requires
        a.len() == b.len(),
        forall|i: int, j: int|
            0 <= i < j < a.len() ==> (#[trigger] a[i]).0@ != (#[trigger] a[j]).0@,
        forall|j: int| 0 <= j < a.len() ==> (#[trigger] b[j]).0@ == a[j].0@,
        forall|j: int| 0 <= j < a.len() && (#[trigger] a[j]).0@ == f ==> a[j] == b[j],
    ensures
        spec_feed_lookup(a, f) == spec_feed_lookup(b, f),
{
    if exists|j: int| 0 <= j < a.len() && a[j].0@ == f {
        let j = choose|j: int| 0 <= j < a.len() && a[j].0@ == f;
        assert(b[j].0@ == f);
        let ja = choose|k: int| 0 <= k < a.len() && a[k].0@ == f;
        let jb = choose|k: int| 0 <= k < b.len() && b[k].0@ == f;
        assert(a[jb].0@ == f);
        assert(ja == jb);
        assert(a[ja] == b[ja]);
    } else {
        assert forall|j: int| 0 <= j < b.len() implies (#[trigger] b[j]).0@ != f by {
            assert(a[j].0@ != f);
        }
    }
}

proof fn lemma_feed_lookup_frame_push(
    a: Seq<(String, Vec<Vec<String>>)>,
    b: Seq<(String, Vec<Vec<String>>)>,
    f: Seq<char>,
)
    requires
        b.len() == a.len() + 1,
        forall|i: int, j: int|
            0 <= i < j < a.len() ==> (#[trigger] a[i]).0@ != (#[trigger] a[j]).0@,
        forall|j: int| 0 <= j < a.len() ==> a[j] == b[j],
        b[b.len() - 1].0@ != f,
    ensures
        spec_feed_lookup(a, f) == spec_feed_lookup(b, f),
{
    if exists|j: int| 0 <= j < a.len() && a[j].0@ == f {
        let j = choose|j: int| 0 <= j < a.len() && a[j].0@ == f;
        assert(b[j].0@ == f);
        let ja = choose|k: int| 0 <= k < a.len() && a[k].0@ == f;
        let jb = choose|k: int| 0 <= k < b.len() && b[k].0@ == f;
        assert(jb < a.len());
        assert(a[jb].0@ == f);
        assert(ja == jb);
        assert(a[ja] == b[ja]);
    } else {
        assert forall|j: int| 0 <= j < b.len() implies (#[trigger] b[j]).0@ != f by {
            if j < a.len() {
                assert(a[j].0@ != f);
            }
        }
    }
}

} // verus!
