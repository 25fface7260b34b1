use vstd::prelude::*;
use crate::strutil::str_eq;

verus! {

/// A feed-membership record as handed to the index by the consumers.
#[derive(Debug)]
pub struct FeedContent {
    pub feed_id: String,
    pub uri: String,
    /// The event's original timestamp, in microseconds.
    pub indexed_at: i64,
    pub score: i32,
    pub is_repost: bool,
    pub repost_uri: Option<String>,
}

/// A feed-membership row as the index holds it.
#[derive(Debug)]
pub struct IndexedRow {
    pub feed_id: String,
    pub uri: String,
    pub indexed_at: i64,
    /// Advances on every write to the row, in microseconds.
    pub updated_at: i64,
    pub score: i32,
    pub is_repost: bool,
    pub repost_uri: Option<String>,
}

/// A deny-list entry.
#[derive(Debug)]
pub struct Denylist {
    pub subject: String,
    pub reason: String,
    pub created_at: i64,
}

/// A resumable firehose position for one upstream hostname.
#[derive(Debug)]
pub struct ConsumerCursor {
    pub source: String,
    pub time_us: i64,
    pub updated_at: i64,
}

/// The index: feed membership, deny list, consumer cursors and the timeline
/// tables, with every table keyed uniquely.
#[derive(Debug)]
pub struct IndexStore {
    pub rows: Vec<IndexedRow>,
    pub deny: Vec<Denylist>,
    pub cursors: Vec<ConsumerCursor>,
    pub user_configs: Vec<crate::timeline_storage::UserConfig>,
    pub user_filters: Vec<crate::timeline_storage::FilterEntry>,
    pub poll_states: Vec<crate::timeline_storage::PollState>,
}

pub open spec fn row_key(r: IndexedRow) -> (Seq<char>, Seq<char>) {
    (r.feed_id@, r.uri@)
}

/// Some row with key `(feed, uri)` is present.
pub open spec fn has_row(rows: Seq<IndexedRow>, feed: Seq<char>, uri: Seq<char>) -> bool {
    exists|i: int| 0 <= i < rows.len() && row_key(rows[i]) == (feed, uri)
}

/// The row the consumers ask the index to hold for `content`, stamped `now`.
pub open spec fn spec_row_of(content: FeedContent, now: i64) -> IndexedRow {
    IndexedRow {
        feed_id: content.feed_id,
        uri: content.uri,
        indexed_at: content.indexed_at,
        updated_at: now,
        score: content.score,
        is_repost: content.is_repost,
        repost_uri: content.repost_uri,
    }
}

/// Upsert at the level of the model: insert if the key is absent, else no-op.
pub open spec fn spec_upsert(rows: Seq<IndexedRow>, content: FeedContent, now: i64) -> Seq<
    IndexedRow,
> {
    if has_row(rows, content.feed_id@, content.uri@) {
        rows
    } else {
        rows.push(spec_row_of(content, now))
    }
}

/// Retention at the level of the model: keep the rows written at or after `before`.
pub open spec fn spec_truncate(rows: Seq<IndexedRow>, before: i64) -> Seq<IndexedRow> {
    rows.filter(|r: IndexedRow| r.updated_at >= before)
}

/// A score bumped by `delta`, saturating at the top of `i32`.
pub open spec fn spec_bump_score(score: i32, delta: i32) -> i32 {
    if score + delta > i32::MAX {
        i32::MAX
    } else {
        (score + delta) as i32
    }
}

impl IndexStore {
    /// Every table of the index is keyed uniquely, and every feed row has a
    /// positive score: at most one row per `(feed_id, uri)`.
    pub open spec fn wf(self) -> bool {
        &&& forall|i: int, j: int|
            0 <= i < j < self.rows@.len() ==> row_key(#[trigger] self.rows@[i]) != row_key(
                #[trigger] self.rows@[j],
            )
        &&& forall|i: int| 0 <= i < self.rows@.len() ==> (#[trigger] self.rows@[i]).score >= 1
        &&& forall|i: int, j: int|
            0 <= i < j < self.deny@.len() ==> (#[trigger] self.deny@[i]).subject@ != (
            #[trigger] self.deny@[j]).subject@
        &&& forall|i: int, j: int|
            0 <= i < j < self.cursors@.len() ==> (#[trigger] self.cursors@[i]).source@ != (
            #[trigger] self.cursors@[j]).source@
        &&& forall|i: int, j: int|
            0 <= i < j < self.user_configs@.len() ==> (#[trigger] self.user_configs@[i]).did@ != (
            #[trigger] self.user_configs@[j]).did@
        &&& forall|i: int, j: int|
            0 <= i < j < self.poll_states@.len() ==> (#[trigger] self.poll_states@[i]).user_did@
                != (#[trigger] self.poll_states@[j]).user_did@
    }

    /// Nothing besides the feed-content table differs between `a` and `b`.
    pub open spec fn same_but_rows(a: IndexStore, b: IndexStore) -> bool {
        &&& a.deny == b.deny
        &&& a.cursors == b.cursors
        &&& a.user_configs == b.user_configs
        &&& a.user_filters == b.user_filters
        &&& a.poll_states == b.poll_states
    }

    /// A subject is on the deny list.
    pub open spec fn is_denied(self, subject: Seq<char>) -> bool {
        exists|i: int| 0 <= i < self.deny@.len() && self.deny@[i].subject@ == subject
    }

    /// The persisted cursor for an upstream source.
    pub open spec fn spec_cursor(self, source: Seq<char>) -> Option<i64> {
        if exists|i: int| 0 <= i < self.cursors@.len() && self.cursors@[i].source@ == source {
            let i = choose|i: int|
                0 <= i < self.cursors@.len() && self.cursors@[i].source@ == source;
            Some(self.cursors@[i].time_us)
        } else {
            None
        }
    }

    pub fn new() -> (r: IndexStore)
        ensures
            r.wf(),
            r.rows@.len() == 0,
            r.deny@.len() == 0,
            r.cursors@.len() == 0,
            r.user_configs@.len() == 0,
            r.user_filters@.len() == 0,
            r.poll_states@.len() == 0,
    {
        IndexStore {
            rows: Vec::new(),
            deny: Vec::new(),
            cursors: Vec::new(),
            user_configs: Vec::new(),
            user_filters: Vec::new(),
            poll_states: Vec::new(),
        }
    }

    /// Index of the row with the given key, if any.
    fn find_row(&self, feed_id: &str, uri: &str) -> (r: Option<usize>)
        ensures
            match r {
                Some(i) => i < self.rows@.len() && row_key(self.rows@[i as int]) == (
                    feed_id@,
                    uri@,
                ),
                None => !has_row(self.rows@, feed_id@, uri@),
            },
    {
        let mut i: usize = 0;
        while i < self.rows.len()
            invariant
                0 <= i <= self.rows@.len(),
                forall|j: int| 0 <= j < i ==> row_key(#[trigger] self.rows@[j]) != (feed_id@, uri@),
            decreases self.rows@.len() - i,
        {
            if str_eq(self.rows[i].feed_id.as_str(), feed_id) && str_eq(
                self.rows[i].uri.as_str(),
                uri,
            ) {
                return Some(i);
            }
            i += 1;
        }
        None
    }

    /// Insert the record if its `(feed_id, uri)` key is absent; else leave the
    /// index unchanged. Returns whether a new row was inserted.
    pub fn feed_content_upsert(&mut self, content: &FeedContent, now: i64) -> (is_new: bool)
        requires
            old(self).wf(),
            content.score >= 1,
        ensures
            final(self).wf(),
            is_new == !has_row(old(self).rows@, content.feed_id@, content.uri@),
            final(self).rows@ == spec_upsert(old(self).rows@, *content, now),
            Self::same_but_rows(*old(self), *final(self)),
    {
        match self.find_row(content.feed_id.as_str(), content.uri.as_str()) {
            Some(_) => false,
            None => {
                let row = IndexedRow {
                    feed_id: content.feed_id.clone(),
                    uri: content.uri.clone(),
                    indexed_at: content.indexed_at,
                    updated_at: now,
                    score: content.score,
                    is_repost: content.is_repost,
                    repost_uri: clone_opt_string(&content.repost_uri),
                };
                proof {
                    assert(row == spec_row_of(*content, now));
                }
                self.rows.push(row);
                proof {
                    assert forall|i: int, j: int|
                        0 <= i < j < self.rows@.len() implies row_key(#[trigger] self.rows@[i])
                        != row_key(#[trigger] self.rows@[j]) by {
                        if j == self.rows@.len() - 1 {
                            assert(row_key(self.rows@[j]) == (content.feed_id@, content.uri@));
                            assert(self.rows@[i] == old(self).rows@[i]);
                        }
                    }
                }
                true
            },
        }
    }

    /// Add `content.score` to the stored score of the row with `content`'s
    /// key, saturating, and advance its `updated_at`; if the key is absent,
    /// do nothing.
    pub fn feed_content_update(&mut self, content: &FeedContent, now: i64)
        requires
            old(self).wf(),
            content.score >= 0,
        ensures
            final(self).wf(),
            Self::same_but_rows(*old(self), *final(self)),
            !has_row(old(self).rows@, content.feed_id@, content.uri@) ==> final(self).rows@ == old(
                self,
            ).rows@,
            has_row(old(self).rows@, content.feed_id@, content.uri@) ==> exists|k: int|
                {
                    &&& 0 <= k < old(self).rows@.len()
                    &&& row_key(old(self).rows@[k]) == (content.feed_id@, content.uri@)
                    &&& final(self).rows@ == old(self).rows@.update(
                        k,
                        IndexedRow {
                            score: spec_bump_score(old(self).rows@[k].score, content.score),
                            updated_at: now,
                            ..old(self).rows@[k]
                        },
                    )
                },
    {
        let found = self.find_row(content.feed_id.as_str(), content.uri.as_str());
        match found {
            None => {},
            Some(k) => {
                let old_score = self.rows[k].score;
                let new_score = if old_score > i32::MAX - content.score {
                    i32::MAX
                } else {
                    old_score + content.score
                };
                let row = &mut self.rows[k];
                row.score = new_score;
                row.updated_at = now;
                proof {
                    let bumped = IndexedRow {
                        score: spec_bump_score(old(self).rows@[k as int].score, content.score),
                        updated_at: now,
                        ..old(self).rows@[k as int]
                    };
                    assert(self.rows@[k as int] == bumped);
                    assert(self.rows@ =~= old(self).rows@.update(k as int, bumped));
                    assert forall|i: int, j: int|
                        0 <= i < j < self.rows@.len() implies row_key(#[trigger] self.rows@[i])
                        != row_key(#[trigger] self.rows@[j]) by {
                        assert(row_key(self.rows@[i]) == row_key(old(self).rows@[i]));
                        assert(row_key(self.rows@[j]) == row_key(old(self).rows@[j]));
                    }
                }
            },
        }
    }

    /// Delete every row whose `updated_at` lies before `before`.
    pub fn feed_content_truncate_oldest(&mut self, before: i64)
        requires
            old(self).wf(),
        ensures
            final(self).wf(),
            Self::same_but_rows(*old(self), *final(self)),
            final(self).rows@ == spec_truncate(old(self).rows@, before),
    {
        let mut kept: Vec<IndexedRow> = Vec::new();
        let n = self.rows.len();
        let mut i: usize = 0;
        while i < n
            invariant
                n == self.rows@.len(),
                0 <= i <= n,
                kept@ == self.rows@.subrange(0, i as int).filter(
                    |r: IndexedRow| r.updated_at >= before,
                ),
            decreases n - i,
        {
            proof {
                let pred = |r: IndexedRow| r.updated_at >= before;
                let pre = self.rows@.subrange(0, i as int);
                assert(self.rows@.subrange(0, i + 1) =~= pre.push(self.rows@[i as int]));
                reveal(Seq::filter);
                assert(pre.push(self.rows@[i as int]).drop_last() =~= pre);
            }
            let r = &self.rows[i];
            if r.updated_at >= before {
                let copied = IndexedRow {
                    feed_id: r.feed_id.clone(),
                    uri: r.uri.clone(),
                    indexed_at: r.indexed_at,
                    updated_at: r.updated_at,
                    score: r.score,
                    is_repost: r.is_repost,
                    repost_uri: clone_opt_string(&r.repost_uri),
                };
                proof {
                    assert(copied == self.rows@[i as int]);
                }
                kept.push(copied);
            }
            i += 1;
        }
        proof {
            assert(self.rows@.subrange(0, n as int) =~= self.rows@);
        }
        self.rows = kept;
        proof {
            lemma_filter_keeps_wf(old(self).rows@, |r: IndexedRow| r.updated_at >= before);
        }
    }

    /// Delete rows by URI, across all feeds or scoped to one feed.
    pub fn feed_content_purge_aturi(&mut self, aturi: &str, feed: &Option<String>)
        requires
            old(self).wf(),
        ensures
            final(self).wf(),
            Self::same_but_rows(*old(self), *final(self)),
            final(self).rows@ == old(self).rows@.filter(
                |r: IndexedRow|
                    !(r.uri@ == aturi@ && (feed is None || r.feed_id@ == feed.unwrap()@)),
            ),
    {
        let ghost keep = |r: IndexedRow|
            !(r.uri@ == aturi@ && (feed is None || r.feed_id@ == feed.unwrap()@));
        let mut kept: Vec<IndexedRow> = Vec::new();
        let n = self.rows.len();
        let mut i: usize = 0;
        while i < n
            invariant
                n == self.rows@.len(),
                0 <= i <= n,
                keep == (|r: IndexedRow|
                    !(r.uri@ == aturi@ && (feed is None || r.feed_id@ == feed.unwrap()@))),
                kept@ == self.rows@.subrange(0, i as int).filter(keep),
            decreases n - i,
    {
            proof {
                let pre = self.rows@.subrange(0, i as int);
                assert(self.rows@.subrange(0, i + 1) =~= pre.push(self.rows@[i as int]));
                reveal(Seq::filter);
                assert(pre.push(self.rows@[i as int]).drop_last() =~= pre);
            }
            let r = &self.rows[i];
            let uri_hits = str_eq(r.uri.as_str(), aturi);
            let scope_hits = match feed {
                None => true,
                Some(f) => str_eq(r.feed_id.as_str(), f.as_str()),
            };
            if !(uri_hits && scope_hits) {
                let copied = IndexedRow {
                    feed_id: r.feed_id.clone(),
                    uri: r.uri.clone(),
                    indexed_at: r.indexed_at,
                    updated_at: r.updated_at,
                    score: r.score,
                    is_repost: r.is_repost,
                    repost_uri: clone_opt_string(&r.repost_uri),
                };
                proof {
                    assert(copied == self.rows@[i as int]);
                    assert(keep(self.rows@[i as int]));
                }
                kept.push(copied);
            } else {
                proof {
                    assert(!keep(self.rows@[i as int]));
                }
            }
            i += 1;
        }
        proof {
            assert(self.rows@.subrange(0, n as int) =~= self.rows@);
        }
        self.rows = kept;
        proof {
            lemma_filter_keeps_wf(old(self).rows@, keep);
        }
    }

    /// Add a subject to the deny list, or refresh its reason and timestamp.
    #[verifier::loop_isolation(false)]
    pub fn denylist_insert(&mut self, subject: &str, reason: &str, now: i64)
        requires
            old(self).wf(),
        ensures
            final(self).wf(),
            final(self).rows == old(self).rows,
            final(self).cursors == old(self).cursors,
            final(self).user_configs == old(self).user_configs,
            final(self).user_filters == old(self).user_filters,
            final(self).poll_states == old(self).poll_states,
            final(self).is_denied(subject@),
            forall|s: Seq<char>|
                #[trigger] final(self).is_denied(s) == (old(self).is_denied(s) || s == subject@),
    {
        let n = self.deny.len();
        let mut i: usize = 0;
        while i < n
            invariant
                *self == *old(self),
                n == self.deny@.len(),
                0 <= i <= n,
                forall|j: int| 0 <= j < i ==> (#[trigger] self.deny@[j]).subject@ != subject@,
            decreases n - i,
        {
            if str_eq(self.deny[i].subject.as_str(), subject) {
                let entry = &mut self.deny[i];
                entry.reason = reason.to_owned();
                entry.created_at = now;
                proof {
                    assert(self.deny@[i as int].subject@ == subject@);
                    assert forall|i2: int, j2: int|
                        0 <= i2 < j2 < self.deny@.len() implies (
                    #[trigger] self.deny@[i2]).subject@ != (
                    #[trigger] self.deny@[j2]).subject@ by {
                        assert(self.deny@[i2].subject@ == old(self).deny@[i2].subject@);
                        assert(self.deny@[j2].subject@ == old(self).deny@[j2].subject@);
                    }
                    assert forall|s: Seq<char>| #[trigger]
                        self.is_denied(s) == (old(self).is_denied(s) || s == subject@) by {
                        assert(forall|j: int|
                            0 <= j < self.deny@.len() ==> (#[trigger] self.deny@[j]).subject@
                                == old(self).deny@[j].subject@);
                        if old(self).is_denied(s) {
                            let j = choose|j: int|
                                0 <= j < old(self).deny@.len() && old(self).deny@[j].subject@ == s;
                            assert(self.deny@[j].subject@ == s);
                        }
                        if self.is_denied(s) {
                            let j = choose|j: int|
                                0 <= j < self.deny@.len() && self.deny@[j].subject@ == s;
                            assert(old(self).deny@[j].subject@ == s);
                        }
                    }
                }
                return ;
            }
            i += 1;
        }
        self.deny.push(
            Denylist { subject: subject.to_owned(), reason: reason.to_owned(), created_at: now },
        );
        proof {
            assert(self.deny@[self.deny@.len() - 1].subject@ == subject@);
            assert forall|s: Seq<char>| #[trigger]
                self.is_denied(s) == (old(self).is_denied(s) || s == subject@) by {
                if old(self).is_denied(s) {
                    let j = choose|j: int|
                        0 <= j < old(self).deny@.len() && old(self).deny@[j].subject@ == s;
                    assert(self.deny@[j].subject@ == s);
                }
                if self.is_denied(s) {
                    let j = choose|j: int|
                        0 <= j < self.deny@.len() && self.deny@[j].subject@ == s;
                    if j < old(self).deny@.len() {
                        assert(old(self).deny@[j].subject@ == s);
                    }
                }
            }
            assert forall|i2: int, j2: int|
                0 <= i2 < j2 < self.deny@.len() implies (#[trigger] self.deny@[i2]).subject@ != (
            #[trigger] self.deny@[j2]).subject@ by {
                if j2 == self.deny@.len() - 1 {
                    assert(self.deny@[i2] == old(self).deny@[i2]);
                }
            }
        }
    }

    /// Same as `denylist_insert`: the deny list keeps one entry per subject.
    pub fn denylist_upsert(&mut self, subject: &str, reason: &str, now: i64)
        requires
            old(self).wf(),
        ensures
            final(self).wf(),
            final(self).rows == old(self).rows,
            final(self).cursors == old(self).cursors,
            final(self).user_configs == old(self).user_configs,
            final(self).user_filters == old(self).user_filters,
            final(self).poll_states == old(self).poll_states,
            final(self).is_denied(subject@),
            forall|s: Seq<char>|
                #[trigger] final(self).is_denied(s) == (old(self).is_denied(s) || s == subject@),
    {
        self.denylist_insert(subject, reason, now)
    }

    /// Remove a subject from the deny list.
    #[verifier::loop_isolation(false)]
    pub fn denylist_remove(&mut self, subject: &str)
        requires
            old(self).wf(),
        ensures
            final(self).wf(),
            final(self).rows == old(self).rows,
            final(self).cursors == old(self).cursors,
            final(self).user_configs == old(self).user_configs,
            final(self).user_filters == old(self).user_filters,
            final(self).poll_states == old(self).poll_states,
            forall|s: Seq<char>|
                #[trigger] final(self).is_denied(s) == (old(self).is_denied(s) && s != subject@),
    {
        let n = self.deny.len();
        let mut i: usize = 0;
        while i < n
            invariant
                n == self.deny@.len(),
                0 <= i <= n,
                forall|j: int| 0 <= j < i ==> (#[trigger] self.deny@[j]).subject@ != subject@,
                *self == *old(self),
            decreases n - i,
        {
            if str_eq(self.deny[i].subject.as_str(), subject) {
                self.deny.remove(i);
                proof {
                    let fin = self.deny@;
                    let pre = old(self).deny@;
                    assert(fin =~= pre.subrange(0, i as int) + pre.subrange(
                        i + 1,
                        pre.len() as int,
                    ));
                    assert forall|s: Seq<char>| #[trigger]
                        self.is_denied(s) == (old(self).is_denied(s) && s != subject@) by {
                        if old(self).is_denied(s) && s != subject@ {
                            let j = choose|j: int| 0 <= j < pre.len() && pre[j].subject@ == s;
                            if j < i {
                                assert(fin[j].subject@ == s);
                            } else {
                                assert(pre[j].subject@ != subject@);
                                assert(j != i);
                                assert(fin[j - 1].subject@ == s);
                            }
                        }
                        if self.is_denied(s) {
                            let j = choose|j: int| 0 <= j < fin.len() && fin[j].subject@ == s;
                            if j < i {
                                assert(pre[j].subject@ == s);
                            } else {
                                assert(pre[j + 1].subject@ == s);
                                assert(i < j + 1 < pre.len());
                                assert(pre[j + 1].subject@ != pre[i as int].subject@);
                            }
                        }
                    }
                    assert forall|i2: int, j2: int|
                        0 <= i2 < j2 < fin.len() implies (#[trigger] fin[i2]).subject@ != (
                    #[trigger] fin[j2]).subject@ by {
                        let a = if i2 < i { i2 } else { i2 + 1 };
                        let b = if j2 < i { j2 } else { j2 + 1 };
                        assert(fin[i2] == pre[a]);
                        assert(fin[j2] == pre[b]);
                    }
                }
                return ;
            }
            i += 1;
        }
    }

    /// Whether any of the given subjects is on the deny list.
    pub fn denylist_exists(&self, subjects: &Vec<String>) -> (r: bool)
        ensures
            r == exists|i: int| 0 <= i < subjects@.len() && self.is_denied(#[trigger] subjects@[i]@),
    {
        let mut i: usize = 0;
        while i < subjects.len()
            invariant
                0 <= i <= subjects@.len(),
                forall|j: int| 0 <= j < i ==> !self.is_denied(#[trigger] subjects@[j]@),
            decreases subjects@.len() - i,
        {
            let mut k: usize = 0;
            while k < self.deny.len()
                invariant
                    i < subjects@.len(),
                    0 <= k <= self.deny@.len(),
                    forall|j: int|
                        0 <= j < k ==> (#[trigger] self.deny@[j]).subject@ != subjects@[i as int]@,
                decreases self.deny@.len() - k,
            {
                if str_eq(self.deny[k].subject.as_str(), subjects[i].as_str()) {
                    return true;
                }
                k += 1;
            }
            i += 1;
        }
        false
    }

    /// Store the cursor for a source, overwriting any earlier value.
    #[verifier::loop_isolation(false)]
    pub fn consumer_control_insert(&mut self, source: &str, time_us: i64, now: i64)
        requires
            old(self).wf(),
        ensures
            final(self).wf(),
            final(self).rows == old(self).rows,
            final(self).deny == old(self).deny,
            final(self).user_configs == old(self).user_configs,
            final(self).user_filters == old(self).user_filters,
            final(self).poll_states == old(self).poll_states,
            final(self).spec_cursor(source@) == Some(time_us),
            forall|s: Seq<char>|
                s != source@ ==> #[trigger] final(self).spec_cursor(s) == old(self).spec_cursor(s),
    {
        let n = self.cursors.len();
        let mut i: usize = 0;
        while i < n
            invariant
                *self == *old(self),
                n == self.cursors@.len(),
                0 <= i <= n,
                forall|j: int| 0 <= j < i ==> (#[trigger] self.cursors@[j]).source@ != source@,
            decreases n - i,
        {
            if str_eq(self.cursors[i].source.as_str(), source) {
                let entry = &mut self.cursors[i];
                entry.time_us = time_us;
                entry.updated_at = now;
                proof {
                    assert forall|i2: int, j2: int|
                        0 <= i2 < j2 < self.cursors@.len() implies (
                    #[trigger] self.cursors@[i2]).source@ != (
                    #[trigger] self.cursors@[j2]).source@ by {
                        assert(self.cursors@[i2].source@ == old(self).cursors@[i2].source@);
                        assert(self.cursors@[j2].source@ == old(self).cursors@[j2].source@);
                    }
                    lemma_cursor_lookup(*self, i as int);
                    assert forall|s: Seq<char>|
                        s != source@ implies #[trigger] self.spec_cursor(s) == old(
                        self,
                    ).spec_cursor(s) by {
                        lemma_cursor_frame(*old(self), *self, s);
                    }
                }
                return ;
            }
            i += 1;
        }
        self.cursors.push(ConsumerCursor { source: source.to_owned(), time_us, updated_at: now });
        proof {
            assert forall|i2: int, j2: int|
                0 <= i2 < j2 < self.cursors@.len() implies (#[trigger] self.cursors@[i2]).source@
                != (#[trigger] self.cursors@[j2]).source@ by {
                if j2 == self.cursors@.len() - 1 {
                    assert(self.cursors@[i2] == old(self).cursors@[i2]);
                } else {
                    assert(self.cursors@[i2] == old(self).cursors@[i2]);
                    assert(self.cursors@[j2] == old(self).cursors@[j2]);
                }
            }
            lemma_cursor_lookup(*self, self.cursors@.len() - 1);
            assert forall|s: Seq<char>|
                s != source@ implies #[trigger] self.spec_cursor(s) == old(self).spec_cursor(s) by {
                lemma_cursor_frame_push(*old(self), *self, s);
            }
        }
    }

    /// Read the persisted cursor for a source.
    pub fn consumer_control_get(&self, source: &str) -> (r: Option<i64>)
        requires
            self.wf(),
        ensures
            r == self.spec_cursor(source@),
    {
        let n = self.cursors.len();
        let mut i: usize = 0;
        while i < n
            invariant
                self.wf(),
                n == self.cursors@.len(),
                0 <= i <= n,
                forall|j: int| 0 <= j < i ==> (#[trigger] self.cursors@[j]).source@ != source@,
            decreases n - i,
        {
            if str_eq(self.cursors[i].source.as_str(), source) {
                proof {
                    lemma_cursor_lookup(*self, i as int);
                }
                return Some(self.cursors[i].time_us);
            }
            i += 1;
        }
        None
    }
}

/// Copy an optional string.
pub fn clone_opt_string(o: &Option<String>) -> (r: Option<String>)
    ensures
        r == *o,
{
    match o {
        Some(s) => Some(s.clone()),
        None => None,
    }
}

/// In a well-formed store, the cursor a lookup finds at index `i` is what
/// `spec_cursor` denotes for that source.
proof fn lemma_cursor_lookup(s: IndexStore, i: int)
    requires
        forall|a: int, b: int|
            0 <= a < b < s.cursors@.len() ==> (#[trigger] s.cursors@[a]).source@ != (
            #[trigger] s.cursors@[b]).source@,
        0 <= i < s.cursors@.len(),
    ensures
        s.spec_cursor(s.cursors@[i].source@) == Some(s.cursors@[i].time_us),
{
    let src = s.cursors@[i].source@;
    assert(exists|j: int| 0 <= j < s.cursors@.len() && s.cursors@[j].source@ == src);
    let j = choose|j: int| 0 <= j < s.cursors@.len() && s.cursors@[j].source@ == src;
    if i < j {
        assert(s.cursors@[i].source@ != s.cursors@[j].source@);
    }
    if j < i {
        assert(s.cursors@[j].source@ != s.cursors@[i].source@);
    }
}

proof fn lemma_cursor_frame(a: IndexStore, b: IndexStore, s: Seq<char>)
    requires
        a.cursors@.len() == b.cursors@.len(),
        forall|i: int, j: int|
            0 <= i < j < a.cursors@.len() ==> (#[trigger] a.cursors@[i]).source@ != (
            #[trigger] a.cursors@[j]).source@,
        forall|j: int|
            0 <= j < a.cursors@.len() ==> (#[trigger] b.cursors@[j]).source@
                == a.cursors@[j].source@,
        forall|j: int|
            0 <= j < a.cursors@.len() && (#[trigger] a.cursors@[j]).source@ == s ==> a.cursors@[j]
                == b.cursors@[j],
    ensures
        a.spec_cursor(s) == b.spec_cursor(s),
{
    if exists|j: int| 0 <= j < a.cursors@.len() && a.cursors@[j].source@ == s {
        let j = choose|j: int| 0 <= j < a.cursors@.len() && a.cursors@[j].source@ == s;
        assert(b.cursors@[j].source@ == s);
        let ja = choose|k: int| 0 <= k < a.cursors@.len() && a.cursors@[k].source@ == s;
        let jb = choose|k: int| 0 <= k < b.cursors@.len() && b.cursors@[k].source@ == s;
        assert(a.cursors@[jb].source@ == s);
        assert(ja == jb);
        assert(a.cursors@[ja] == b.cursors@[ja]);
    } else {
        assert forall|j: int|
            0 <= j < b.cursors@.len() implies (#[trigger] b.cursors@[j]).source@ != s by {
            assert(a.cursors@[j].source@ != s);
        }
    }
}

proof fn lemma_cursor_frame_push(a: IndexStore, b: IndexStore, s: Seq<char>)
    requires
        b.cursors@.len() == a.cursors@.len() + 1,
        forall|i: int, j: int|
            0 <= i < j < a.cursors@.len() ==> (#[trigger] a.cursors@[i]).source@ != (
            #[trigger] a.cursors@[j]).source@,
        forall|j: int| 0 <= j < a.cursors@.len() ==> a.cursors@[j] == b.cursors@[j],
        b.cursors@[b.cursors@.len() - 1].source@ != s,
    ensures
        a.spec_cursor(s) == b.spec_cursor(s),
{
    if exists|j: int| 0 <= j < a.cursors@.len() && a.cursors@[j].source@ == s {
        let j = choose|j: int| 0 <= j < a.cursors@.len() && a.cursors@[j].source@ == s;
        assert(b.cursors@[j].source@ == s);
        let ja = choose|k: int| 0 <= k < a.cursors@.len() && a.cursors@[k].source@ == s;
        let jb = choose|k: int| 0 <= k < b.cursors@.len() && b.cursors@[k].source@ == s;
        assert(jb < a.cursors@.len());
        assert(a.cursors@[jb].source@ == s);
        assert(ja == jb);
        assert(a.cursors@[ja] == b.cursors@[ja]);
    } else {
        assert forall|j: int|
            0 <= j < b.cursors@.len() implies (#[trigger] b.cursors@[j]).source@ != s by {
            if j < a.cursors@.len() {
                assert(a.cursors@[j].source@ != s);
            }
        }
    }
}

/// Filtering keeps the index well-formed: the kept rows are among the old
/// ones, so keys stay pairwise distinct and scores stay positive.
proof fn lemma_filter_keeps_wf(rows: Seq<IndexedRow>, pred: spec_fn(IndexedRow) -> bool)
    requires
        forall|i: int, j: int|
            0 <= i < j < rows.len() ==> row_key(#[trigger] rows[i]) != row_key(#[trigger] rows[j]),
        forall|i: int| 0 <= i < rows.len() ==> (#[trigger] rows[i]).score >= 1,
    ensures
        forall|i: int, j: int|
            0 <= i < j < rows.filter(pred).len() ==> row_key(#[trigger] rows.filter(pred)[i])
                != row_key(#[trigger] rows.filter(pred)[j]),
        forall|i: int|
            0 <= i < rows.filter(pred).len() ==> (#[trigger] rows.filter(pred)[i]).score >= 1,
    decreases rows.len(),
{
    reveal(Seq::filter);
    if rows.len() > 0 {
        let prefix = rows.drop_last();
        assert(forall|i: int, j: int|
            0 <= i < j < prefix.len() ==> row_key(#[trigger] prefix[i]) != row_key(
                #[trigger] prefix[j],
            ));
        assert(forall|i: int| 0 <= i < prefix.len() ==> (#[trigger] prefix[i]).score >= 1);
        lemma_filter_keeps_wf(prefix, pred);
        let f = rows.filter(pred);
        let fp = prefix.filter(pred);
        if pred(rows.last()) {
            assert(f == fp.push(rows.last()));
            assert forall|i: int, j: int|
                0 <= i < j < f.len() implies row_key(#[trigger] f[i]) != row_key(
                #[trigger] f[j],
            ) by {
                if j < f.len() - 1 {
                    assert(f[i] == fp[i] && f[j] == fp[j]);
                } else {
                    assert(f[i] == fp[i]);
                    lemma_filter_elem_in_orig(prefix, pred, i);
                    let k = choose|k: int| 0 <= k < prefix.len() && prefix[k] == fp[i];
                    assert(rows[k] == fp[i]);
                    assert(row_key(rows[k]) != row_key(rows[rows.len() - 1]));
                }
            }
            assert forall|i: int| 0 <= i < f.len() implies (#[trigger] f[i]).score >= 1 by {
                if i < f.len() - 1 {
                    assert(f[i] == fp[i]);
                } else {
                    assert(f[i] == rows[rows.len() - 1]);
                }
            }
        } else {
            assert(f == fp);
        }
    }
}

/// Every element of a filtered sequence occurs in the original one.
proof fn lemma_filter_elem_in_orig(
    rows: Seq<IndexedRow>,
    pred: spec_fn(IndexedRow) -> bool,
    i: int,
)
    requires
        0 <= i < rows.filter(pred).len(),
    ensures
        exists|k: int| 0 <= k < rows.len() && rows[k] == rows.filter(pred)[i],
    decreases rows.len(),
{
    reveal(Seq::filter);
    if rows.len() > 0 {
        let prefix = rows.drop_last();
        let f = rows.filter(pred);
        let fp = prefix.filter(pred);
        if pred(rows.last()) {
            assert(f == fp.push(rows.last()));
            if i < f.len() - 1 {
                lemma_filter_elem_in_orig(prefix, pred, i);
                let k = choose|k: int| 0 <= k < prefix.len() && prefix[k] == fp[i];
                assert(rows[k] == f[i]);
            } else {
                assert(rows[rows.len() - 1] == f[i]);
            }
        } else {
            assert(f == fp);
            lemma_filter_elem_in_orig(prefix, pred, i);
            let k = choose|k: int| 0 <= k < prefix.len() && prefix[k] == fp[i];
            assert(rows[k] == f[i]);
        }
    }
}

/// Upsert is idempotent: repeating `feed_content_upsert` with the same record
/// leaves the index exactly as one application left it.
pub proof fn lemma_upsert_idempotent(
    rows: Seq<IndexedRow>,
    content: FeedContent,
    now1: i64,
    now2: i64,
)
    ensures
        spec_upsert(spec_upsert(rows, content, now1), content, now2) == spec_upsert(
            rows,
            content,
            now1,
        ),
{
    let once = spec_upsert(rows, content, now1);
    if has_row(rows, content.feed_id@, content.uri@) {
        let i = choose|i: int|
            0 <= i < rows.len() && row_key(rows[i]) == (content.feed_id@, content.uri@);
        assert(row_key(once[i]) == (content.feed_id@, content.uri@));
        assert(has_row(once, content.feed_id@, content.uri@));
    } else {
        assert(once[once.len() - 1] == spec_row_of(content, now1));
        assert(row_key(once[once.len() - 1]) == (content.feed_id@, content.uri@));
        assert(has_row(once, content.feed_id@, content.uri@));
    }
}

/// The index after upserting one record at each of the given times, in order.
pub open spec fn spec_upsert_n(
    rows: Seq<IndexedRow>,
    content: FeedContent,
    times: Seq<i64>,
) -> Seq<IndexedRow>
    decreases times.len(),
{
    if times.len() == 0 {
        rows
    } else {
        spec_upsert_n(spec_upsert(rows, content, times[0]), content, times.drop_first())
    }
}

/// Any number of repeats of the same upsert leaves the index exactly as the
/// first application left it: one row for the key, with its first timestamp.
pub proof fn lemma_upsert_repeats(rows: Seq<IndexedRow>, content: FeedContent, times: Seq<i64>)
    requires
        times.len() >= 1,
    ensures
        spec_upsert_n(rows, content, times) == spec_upsert(rows, content, times[0]),
    decreases times.len(),
{
    let once = spec_upsert(rows, content, times[0]);
    if times.len() == 1 {
        assert(spec_upsert_n(once, content, times.drop_first()) == once);
    } else {
        lemma_upsert_idempotent(rows, content, times[0], times.drop_first()[0]);
        lemma_upsert_repeats(once, content, times.drop_first());
    }
}

/// Retention is idempotent: truncating twice at the same bound equals
/// truncating once.
pub proof fn lemma_truncate_idempotent(rows: Seq<IndexedRow>, before: i64)
    ensures
        spec_truncate(spec_truncate(rows, before), before) == spec_truncate(rows, before),
{
    lemma_filter_idempotent(rows, |r: IndexedRow| r.updated_at >= before);
}

proof fn lemma_filter_idempotent(rows: Seq<IndexedRow>, pred: spec_fn(IndexedRow) -> bool)
    ensures
        rows.filter(pred).filter(pred) == rows.filter(pred),
    decreases rows.len(),
{
    reveal(Seq::filter);
    if rows.len() > 0 {
        lemma_filter_idempotent(rows.drop_last(), pred);
        let f = rows.filter(pred);
        let fp = rows.drop_last().filter(pred);
        if pred(rows.last()) {
            assert(f == fp.push(rows.last()));
            assert(f.drop_last() =~= fp);
            assert(f.filter(pred) =~= fp.filter(pred).push(rows.last()));
        } else {
            assert(f == fp);
        }
    }
}

/// The content of the index as a map from keys to rows; faithful on stores
/// whose keys are unique.
pub open spec fn content_map(rows: Seq<IndexedRow>) -> Map<(Seq<char>, Seq<char>), IndexedRow> {
    Map::new(
        |k: (Seq<char>, Seq<char>)| exists|i: int| 0 <= i < rows.len() && row_key(rows[i]) == k,
        |k: (Seq<char>, Seq<char>)|
            {
                let i = choose|i: int| 0 <= i < rows.len() && row_key(rows[i]) == k;
                rows[i]
            },
    )
}

/// Upserts of records with different keys commute: the index they leave, read
/// as a map, does not depend on their order.
pub proof fn lemma_upsert_commutes(
    rows: Seq<IndexedRow>,
    a: FeedContent,
    b: FeedContent,
    now_a: i64,
    now_b: i64,
)
    requires
        (a.feed_id@, a.uri@) != (b.feed_id@, b.uri@),
        forall|i: int, j: int|
            0 <= i < j < rows.len() ==> row_key(#[trigger] rows[i]) != row_key(#[trigger] rows[j]),
    ensures
        content_map(spec_upsert(spec_upsert(rows, a, now_a), b, now_b)) =~= content_map(
            spec_upsert(spec_upsert(rows, b, now_b), a, now_a),
        ),
{
    let ka = (a.feed_id@, a.uri@);
    let kb = (b.feed_id@, b.uri@);
    lemma_upsert_keeps_distinct(rows, a, now_a);
    lemma_upsert_keeps_distinct(rows, b, now_b);
    lemma_upsert_map(rows, a, now_a);
    lemma_upsert_map(spec_upsert(rows, a, now_a), b, now_b);
    lemma_upsert_map(rows, b, now_b);
    lemma_upsert_map(spec_upsert(rows, b, now_b), a, now_a);
    lemma_upsert_has_other(rows, a, now_a, kb);
    lemma_upsert_has_other(rows, b, now_b, ka);
}

/// Upsert keeps the keys of the index pairwise distinct.
proof fn lemma_upsert_keeps_distinct(rows: Seq<IndexedRow>, c: FeedContent, now: i64)
    requires
        forall|i: int, j: int|
            0 <= i < j < rows.len() ==> row_key(#[trigger] rows[i]) != row_key(#[trigger] rows[j]),
    ensures
        forall|i: int, j: int|
            0 <= i < j < spec_upsert(rows, c, now).len() ==> row_key(
                #[trigger] spec_upsert(rows, c, now)[i],
            ) != row_key(#[trigger] spec_upsert(rows, c, now)[j]),
{
    let out = spec_upsert(rows, c, now);
    if !has_row(rows, c.feed_id@, c.uri@) {
        assert forall|i: int, j: int|
            0 <= i < j < out.len() implies row_key(#[trigger] out[i]) != row_key(
            #[trigger] out[j],
        ) by {
            if j == out.len() - 1 {
                assert(out[i] == rows[i]);
                assert(row_key(out[j]) == (c.feed_id@, c.uri@));
            } else {
                assert(out[i] == rows[i] && out[j] == rows[j]);
            }
        }
    }
}

/// Upsert of one key leaves the presence of every other key as it was.
proof fn lemma_upsert_has_other(
    rows: Seq<IndexedRow>,
    c: FeedContent,
    now: i64,
    k: (Seq<char>, Seq<char>),
)
    requires
        k != (c.feed_id@, c.uri@),
    ensures
        has_row(spec_upsert(rows, c, now), k.0, k.1) == has_row(rows, k.0, k.1),
{
    let out = spec_upsert(rows, c, now);
    if has_row(rows, k.0, k.1) {
        let i = choose|i: int| 0 <= i < rows.len() && row_key(rows[i]) == (k.0, k.1);
        assert(row_key(out[i]) == (k.0, k.1));
    } else {
        if has_row(out, k.0, k.1) {
            let i = choose|i: int| 0 <= i < out.len() && row_key(out[i]) == (k.0, k.1);
            if i < rows.len() {
                assert(row_key(rows[i]) == (k.0, k.1));
            } else {
                assert(out[i] == spec_row_of(c, now));
            }
        }
    }
}

/// Upsert on the map view: it inserts the new row when the key is absent and
/// keeps the map as it is when the key is present.
pub proof fn lemma_upsert_map(rows: Seq<IndexedRow>, c: FeedContent, now: i64)
    requires
        forall|i: int, j: int|
            0 <= i < j < rows.len() ==> row_key(#[trigger] rows[i]) != row_key(#[trigger] rows[j]),
    ensures
        !has_row(rows, c.feed_id@, c.uri@) ==> content_map(spec_upsert(rows, c, now))
            =~= content_map(rows).insert((c.feed_id@, c.uri@), spec_row_of(c, now)),
        has_row(rows, c.feed_id@, c.uri@) ==> content_map(spec_upsert(rows, c, now)) == content_map(
            rows,
        ),
{
    let k = (c.feed_id@, c.uri@);
    if !has_row(rows, c.feed_id@, c.uri@) {
        let out = spec_upsert(rows, c, now);
        assert(out == rows.push(spec_row_of(c, now)));
        assert(row_key(out[out.len() - 1]) == k);
        assert forall|kk: (Seq<char>, Seq<char>)|
            content_map(out).dom().contains(kk) == content_map(rows).insert(
                k,
                spec_row_of(c, now),
            ).dom().contains(kk) by {
            if kk == k {
                assert(row_key(out[out.len() - 1]) == kk);
                assert(content_map(out).dom().contains(kk));
            } else {
                if content_map(rows).dom().contains(kk) {
                    let i = choose|i: int| 0 <= i < rows.len() && row_key(rows[i]) == kk;
                    assert(row_key(out[i]) == kk);
                }
                if content_map(out).dom().contains(kk) {
                    let i = choose|i: int| 0 <= i < out.len() && row_key(out[i]) == kk;
                    assert(i < rows.len());
                    assert(row_key(rows[i]) == kk);
                }
            }
        }
        assert forall|kk: (Seq<char>, Seq<char>)|
            content_map(out).dom().contains(kk) implies content_map(out)[kk] == content_map(
            rows,
        ).insert(k, spec_row_of(c, now))[kk] by {
            if kk == k {
                let i2 = choose|i2: int| 0 <= i2 < out.len() && row_key(out[i2]) == k;
                if i2 < rows.len() {
                    assert(row_key(rows[i2]) == k);
                    assert(has_row(rows, c.feed_id@, c.uri@));
                }
                assert(content_map(out)[k] == spec_row_of(c, now));
            } else {
                let i2 = choose|i2: int| 0 <= i2 < out.len() && row_key(out[i2]) == kk;
                assert(i2 < rows.len());
                assert(row_key(rows[i2]) == kk);
                let i3 = choose|i3: int| 0 <= i3 < rows.len() && row_key(rows[i3]) == kk;
                assert(out[i3] == rows[i3]);
            }
        }
    }
}

} // verus!
