use vstd::prelude::*;
use crate::store::{FeedContent, IndexStore, IndexedRow};
use crate::strutil::{clone_string_vec, str_eq};

verus! {

/// The record a stored row reads back as.
pub open spec fn content_of(r: IndexedRow) -> FeedContent {
    FeedContent {
        feed_id: r.feed_id,
        uri: r.uri,
        indexed_at: r.indexed_at,
        score: r.score,
        is_repost: r.is_repost,
        repost_uri: r.repost_uri,
    }
}

/// The records of one feed, in storage order.
pub open spec fn spec_feed_contents(rows: Seq<IndexedRow>, feed: Seq<char>) -> Seq<FeedContent> {
    rows.filter(|r: IndexedRow| r.feed_id@ == feed).map_values(|r: IndexedRow| content_of(r))
}

/// Newest first.
pub open spec fn sorted_by_time_desc(s: Seq<FeedContent>) -> bool {
    forall|i: int, j: int|
        0 <= i < j < s.len() ==> (#[trigger] s[i]).indexed_at >= (#[trigger] s[j]).indexed_at
}

impl IndexStore {
    /// One feed's records, newest first: some ordering of exactly the feed's
    /// rows that is sorted by `indexed_at` descending.
    #[verifier::loop_isolation(false)]
    pub fn feed_rows_sorted(&self, feed_uri: &str) -> (r: Vec<FeedContent>)
        ensures
            r@.to_multiset() == spec_feed_contents(self.rows@, feed_uri@).to_multiset(),
            sorted_by_time_desc(r@),
    {
        broadcast use vstd::seq_lib::group_to_multiset_ensures;

        let ghost keep = |row: IndexedRow| row.feed_id@ == feed_uri@;
        let mut picked: Vec<FeedContent> = Vec::new();
        let n = self.rows.len();
        let mut i: usize = 0;
        while i < n
            invariant
                n == self.rows@.len(),
                0 <= i <= n,
                keep == (|row: IndexedRow| row.feed_id@ == feed_uri@),
                picked@ == self.rows@.subrange(0, i as int).filter(keep).map_values(
                    |row: IndexedRow| content_of(row),
                ),
            decreases n - i,
        {
            proof {
                let pre = self.rows@.subrange(0, i as int);
                assert(self.rows@.subrange(0, i + 1) =~= pre.push(self.rows@[i as int]));
                reveal(Seq::filter);
                assert(pre.push(self.rows@[i as int]).drop_last() =~= pre);
            }
            let row = &self.rows[i];
            if str_eq(row.feed_id.as_str(), feed_uri) {
                let c = FeedContent {
                    feed_id: row.feed_id.clone(),
                    uri: row.uri.clone(),
                    indexed_at: row.indexed_at,
                    score: row.score,
                    is_repost: row.is_repost,
                    repost_uri: crate::store::clone_opt_string(&row.repost_uri),
                };
                proof {
                    assert(c == content_of(self.rows@[i as int]));
                }
                picked.push(c);
                proof {
                    assert(picked@ =~= self.rows@.subrange(0, i + 1).filter(keep).map_values(
                        |row2: IndexedRow| content_of(row2),
                    ));
                }
            } else {
                proof {
                    assert(picked@ =~= self.rows@.subrange(0, i + 1).filter(keep).map_values(
                        |row2: IndexedRow| content_of(row2),
                    ));
                }
            }
            i += 1;
        }
        proof {
            assert(self.rows@.subrange(0, n as int) =~= self.rows@);
        }
        // Sort newest first by selecting a most recent remaining record.
        let mut input = picked;
        let mut out: Vec<FeedContent> = Vec::new();
        proof {
            assert(out@.to_multiset().add(input@.to_multiset()) =~= spec_feed_contents(
                self.rows@,
                feed_uri@,
            ).to_multiset());
        }
        while input.len() > 0
            invariant
                out@.to_multiset().add(input@.to_multiset()) == spec_feed_contents(
                    self.rows@,
                    feed_uri@,
                ).to_multiset(),
                sorted_by_time_desc(out@),
                forall|a: int, b: int|
                    0 <= a < out@.len() && 0 <= b < input@.len() ==> (
                    #[trigger] out@[a]).indexed_at >= (#[trigger] input@[b]).indexed_at,
            decreases input@.len(),
        {
            let mut mi: usize = 0;
            let mut k: usize = 1;
            while k < input.len()
                invariant
                    input@.len() > 0,
                    0 <= mi < input@.len(),
                    1 <= k <= input@.len(),
                    forall|j: int|
                        0 <= j < k ==> (#[trigger] input@[j]).indexed_at
                            <= input@[mi as int].indexed_at,
                decreases input@.len() - k,
            {
                if input[k].indexed_at > input[mi].indexed_at {
                    mi = k;
                }
                k += 1;
            }
            let ghost pre_out = out@;
            let ghost pre_in = input@;
            let x = input.remove(mi);
            out.push(x);
            proof {
                assert(pre_in.remove(mi as int).to_multiset() =~= pre_in.to_multiset().remove(
                    pre_in[mi as int],
                ));
                assert(pre_out.push(x).to_multiset() =~= pre_out.to_multiset().insert(x));
                assert(out@.to_multiset().add(input@.to_multiset()) =~= spec_feed_contents(
                    self.rows@,
                    feed_uri@,
                ).to_multiset());
                assert forall|a: int, b: int|
                    0 <= a < out@.len() && 0 <= b < input@.len() implies (
                #[trigger] out@[a]).indexed_at >= (#[trigger] input@[b]).indexed_at by {
                    let orig = if b < mi {
                        b
                    } else {
                        b + 1
                    };
                    assert(input@[b] == pre_in[orig]);
                    if a < out@.len() - 1 {
                        assert(out@[a] == pre_out[a]);
                    } else {
                        assert(out@[a] == x);
                    }
                }
            }
        }
        proof {
            assert(input@.to_multiset().len() == 0);
            assert(out@.to_multiset().add(input@.to_multiset()) =~= out@.to_multiset());
        }
        out
    }

    /// The most recent `limit` records of a feed, newest first: a prefix of
    /// some newest-first ordering of exactly the feed's rows.
    pub fn feed_content_cached(&self, feed_uri: &str, limit: u32) -> (r: Vec<FeedContent>)
        ensures
            exists|all: Seq<FeedContent>|
                {
                    &&& #[trigger] all.to_multiset() == spec_feed_contents(
                        self.rows@,
                        feed_uri@,
                    ).to_multiset()
                    &&& sorted_by_time_desc(all)
                    &&& r@ == all.subrange(
                        0,
                        if limit <= all.len() {
                            limit as int
                        } else {
                            all.len() as int
                        },
                    )
                },
    {
        let mut sorted = self.feed_rows_sorted(feed_uri);
        let ghost all = sorted@;
        if (limit as usize) < sorted.len() {
            sorted.truncate(limit as usize);
        }
        proof {
            assert(sorted@ =~= all.subrange(
                0,
                if limit <= all.len() {
                    limit as int
                } else {
                    all.len() as int
                },
            ));
        }
        sorted
    }

    /// A page of a feed for the skeleton endpoint: `limit` records after
    /// skipping `offset`, newest first, out of some newest-first ordering of
    /// exactly the feed's rows.
    #[verifier::loop_isolation(false)]
    pub fn get_feed_posts(&self, feed_uri: &str, limit: u32, offset: u32) -> (r: Vec<FeedContent>)
        ensures
            exists|all: Seq<FeedContent>|
                {
                    &&& #[trigger] all.to_multiset() == spec_feed_contents(
                        self.rows@,
                        feed_uri@,
                    ).to_multiset()
                    &&& sorted_by_time_desc(all)
                    &&& r@ == all.subrange(
                        if offset <= all.len() {
                            offset as int
                        } else {
                            all.len() as int
                        },
                        if offset + limit <= all.len() {
                            offset + limit
                        } else {
                            all.len() as int
                        },
                    )
                },
    {
        let sorted = self.feed_rows_sorted(feed_uri);
        let ghost all = sorted@;
        let start: usize = if (offset as usize) <= sorted.len() {
            offset as usize
        } else {
            sorted.len()
        };
        let end: usize = if (offset as usize) < sorted.len() && (limit as usize) < sorted.len()
            - (offset as usize) {
            (offset as usize) + (limit as usize)
        } else {
            sorted.len()
        };
        let mut out: Vec<FeedContent> = Vec::new();
        let mut i: usize = start;
        while i < end
            invariant
                start <= i <= end <= sorted@.len(),
                out@ == sorted@.subrange(start as int, i as int),
            decreases end - i,
        {
            let row = &sorted[i];
            let c = FeedContent {
                feed_id: row.feed_id.clone(),
                uri: row.uri.clone(),
                indexed_at: row.indexed_at,
                score: row.score,
                is_repost: row.is_repost,
                repost_uri: crate::store::clone_opt_string(&row.repost_uri),
            };
            proof {
                assert(c == sorted@[i as int]);
                assert(sorted@.subrange(start as int, i + 1) =~= sorted@.subrange(
                    start as int,
                    i as int,
                ).push(sorted@[i as int]));
            }
            out.push(c);
            i += 1;
        }
        proof {
            assert(out@ =~= all.subrange(
                if offset <= all.len() {
                    offset as int
                } else {
                    all.len() as int
                },
                if offset + limit <= all.len() {
                    offset + limit
                } else {
                    all.len() as int
                },
            ));
        }
        out
    }

    /// Every configured timeline feed URI, in storage order.
    pub fn get_all_feed_uris(&self) -> (r: Vec<String>)
        ensures
            r@.len() == self.user_configs@.len(),
            forall|i: int|
                0 <= i < r@.len() ==> (#[trigger] r@[i]) == self.user_configs@[i].feed_uri,
    {
        let mut out: Vec<String> = Vec::new();
        let mut i: usize = 0;
        while i < self.user_configs.len()
            invariant
                0 <= i <= self.user_configs@.len(),
                out@.len() == i,
                forall|j: int|
                    0 <= j < i ==> (#[trigger] out@[j]) == self.user_configs@[j].feed_uri,
            decreases self.user_configs@.len() - i,
        {
            out.push(self.user_configs[i].feed_uri.clone());
            i += 1;
        }
        out
    }
}

} // verus!
