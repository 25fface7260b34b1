use vstd::prelude::*;
use crate::store::IndexStore;
use crate::strutil::str_eq;
use crate::timeline_config::{FilterConfig, TimelineFeed, TimelineFeeds};
use crate::config::duration_seconds_of;

verus! {

/// A user's timeline configuration as the index persists it.
#[derive(Debug)]
pub struct UserConfig {
    pub did: String,
    pub feed_uri: String,
    pub name: String,
    pub description: String,
    pub access_token: String,
    pub refresh_token: Option<String>,
    pub token_expires_at: Option<String>,
    pub pds_url: String,
    pub poll_interval_seconds: i64,
    pub max_posts_per_poll: i64,
}

/// One persisted filter entry for a user.
#[derive(Debug)]
pub struct FilterEntry {
    pub user_did: String,
    pub filter_type: String,
    pub filter_value: String,
    pub created_at: i64,
}

/// A user's filters, read back from the index.
#[derive(Debug)]
pub struct UserFilters {
    pub blocked_reposters: Vec<String>,
}

/// Per-user polling position and counters for the two timeline tracks.
#[derive(Debug)]
pub struct PollState {
    pub user_did: String,
    pub last_cursor: Option<String>,
    /// Fresh track: time of the last poll without a cursor, microseconds.
    pub last_poll_at: Option<i64>,
    /// Backfill track: time of the last poll with a cursor, microseconds.
    pub last_backfill_poll_at: Option<i64>,
    pub posts_indexed: i64,
    pub total_posts_indexed: i64,
    pub blocked_count: i64,
    /// Turns false once the upstream returns no cursor.
    pub cursor_open: bool,
}

/// Statistics of a user's polling, for reporting.
#[derive(Debug)]
pub struct PollStats {
    pub last_poll_at: Option<i64>,
    pub posts_indexed: i64,
    pub total_posts_indexed: i64,
}

impl IndexStore {
    /// Index of the poll state of a user, if any.
    fn find_poll_state(&self, user_did: &str) -> (r: Option<usize>)
        ensures
            match r {
                Some(i) => i < self.poll_states@.len() && self.poll_states@[i as int].user_did@
                    == user_did@,
                None => forall|j: int|
                    0 <= j < self.poll_states@.len() ==> self.poll_states@[j].user_did@
                        != user_did@,
            },
    {
        let mut i: usize = 0;
        while i < self.poll_states.len()
            invariant
                0 <= i <= self.poll_states@.len(),
                forall|j: int| 0 <= j < i ==> self.poll_states@[j].user_did@ != user_did@,
            decreases self.poll_states@.len() - i,
        {
            if str_eq(self.poll_states[i].user_did.as_str(), user_did) {
                return Some(i);
            }
            i += 1;
        }
        None
    }

    /// Whether a poll state is recorded for the user.
    pub open spec fn has_poll_state(self, user_did: Seq<char>) -> bool {
        exists|i: int|
            0 <= i < self.poll_states@.len() && self.poll_states@[i].user_did@ == user_did
    }

    /// The recorded poll state of a user; meaningful only when one exists.
    pub open spec fn spec_poll_state(self, user_did: Seq<char>) -> PollState {
        let i = choose|i: int|
            0 <= i < self.poll_states@.len() && self.poll_states@[i].user_did@ == user_did;
        self.poll_states@[i]
    }

    /// Whether the fresh track is due for the user: true when the user was
    /// never polled, else when at least `interval_us` has passed.
    pub fn should_poll(&self, user_did: &str, interval_us: i64, now: i64) -> (r: bool)
        requires
            self.wf(),
        ensures
            r == (!self.has_poll_state(user_did@) || match self.spec_poll_state(
                user_did@,
            ).last_poll_at {
                None => true,
                Some(t) => now - t >= interval_us,
            }),
    {
        match self.find_poll_state(user_did) {
            None => true,
            Some(i) => {
                proof {
                    self.lemma_poll_state_lookup(i as int);
                }
                match self.poll_states[i].last_poll_at {
                    None => true,
                    Some(t) => (now as i128) - (t as i128) >= (interval_us as i128),
                }
            },
        }
    }

    /// Whether the backfill track is due for the user.
    pub fn should_poll_backfill(&self, user_did: &str, interval_us: i64, now: i64) -> (r: bool)
        requires
            self.wf(),
        ensures
            r == (!self.has_poll_state(user_did@) || match self.spec_poll_state(
                user_did@,
            ).last_backfill_poll_at {
                None => true,
                Some(t) => now - t >= interval_us,
            }),
    {
        match self.find_poll_state(user_did) {
            None => true,
            Some(i) => {
                proof {
                    self.lemma_poll_state_lookup(i as int);
                }
                match self.poll_states[i].last_backfill_poll_at {
                    None => true,
                    Some(t) => (now as i128) - (t as i128) >= (interval_us as i128),
                }
            },
        }
    }

    /// Whether the backfill track still has work: it stops once the upstream
    /// returned no cursor, or once `total_posts_indexed` reached the limit.
    pub fn needs_backfill(&self, user_did: &str, backfill_limit: Option<u32>) -> (r: bool)
        requires
            self.wf(),
        ensures
            r == (!self.has_poll_state(user_did@) || {
                let st = self.spec_poll_state(user_did@);
                st.cursor_open && match backfill_limit {
                    None => true,
                    Some(limit) => st.total_posts_indexed < limit,
                }
            }),
    {
        match self.find_poll_state(user_did) {
            None => true,
            Some(i) => {
                proof {
                    self.lemma_poll_state_lookup(i as int);
                }
                let st = &self.poll_states[i];
                st.cursor_open && match backfill_limit {
                    None => true,
                    Some(limit) => st.total_posts_indexed < limit as i64,
                }
            },
        }
    }

    /// The persisted backfill cursor of a user.
    pub fn get_cursor(&self, user_did: &str) -> (r: Option<String>)
        requires
            self.wf(),
        ensures
            match r {
                Some(c) => self.has_poll_state(user_did@) && (self.spec_poll_state(
                    user_did@,
                ).last_cursor matches Some(s) && s@ == c@),
                None => !self.has_poll_state(user_did@) || self.spec_poll_state(
                    user_did@,
                ).last_cursor is None,
            },
    {
        match self.find_poll_state(user_did) {
            None => None,
            Some(i) => {
                proof {
                    self.lemma_poll_state_lookup(i as int);
                }
                match &self.poll_states[i].last_cursor {
                    None => None,
                    Some(c) => Some(c.clone()),
                }
            },
        }
    }

    proof fn lemma_poll_state_lookup(self, i: int)
        requires
            self.wf(),
            0 <= i < self.poll_states@.len(),
        ensures
            self.has_poll_state(self.poll_states@[i].user_did@),
            self.spec_poll_state(self.poll_states@[i].user_did@) == self.poll_states@[i],
    {
        let did = self.poll_states@[i].user_did@;
        assert(exists|j: int|
            0 <= j < self.poll_states@.len() && self.poll_states@[j].user_did@ == did);
        let j = choose|j: int|
            0 <= j < self.poll_states@.len() && self.poll_states@[j].user_did@ == did;
        if i < j {
            assert(self.poll_states@[i].user_did@ != self.poll_states@[j].user_did@);
        }
        if j < i {
            assert(self.poll_states@[j].user_did@ != self.poll_states@[i].user_did@);
        }
    }

    /// Record a fresh-track poll: only the fresh due-time and the counters
    /// move; the cursor and the whole backfill track stay as they were.
    pub fn update_poll_state(
        &mut self,
        user_did: &str,
        posts_indexed: i32,
        blocked: i32,
        now: i64,
    )
        requires
            old(self).wf(),
            posts_indexed >= 0,
            blocked >= 0,
        ensures
            final(self).wf(),
            final(self).rows == old(self).rows,
            final(self).deny == old(self).deny,
            final(self).cursors == old(self).cursors,
            final(self).user_configs == old(self).user_configs,
            final(self).user_filters == old(self).user_filters,
            final(self).has_poll_state(user_did@),
            ({
                let st = final(self).spec_poll_state(user_did@);
                &&& st.last_poll_at == Some(now)
                &&& st.posts_indexed == posts_indexed as i64
                // A fresh poll never saves a cursor and never touches the backfill track.
                &&& (old(self).has_poll_state(user_did@) ==> {
                    let prev = old(self).spec_poll_state(user_did@);
                    &&& st.last_cursor == prev.last_cursor
                    &&& st.last_backfill_poll_at == prev.last_backfill_poll_at
                    &&& st.total_posts_indexed == prev.total_posts_indexed
                    &&& st.cursor_open == prev.cursor_open
                })
                &&& (!old(self).has_poll_state(user_did@) ==> {
                    &&& st.last_cursor is None
                    &&& st.last_backfill_poll_at is None
                    &&& st.total_posts_indexed == posts_indexed as i64
                    &&& st.cursor_open
                })
            }),
            forall|d: Seq<char>|
                d != user_did@ ==> #[trigger] final(self).has_poll_state(d) == old(
                    self,
                ).has_poll_state(d) && (old(self).has_poll_state(d) ==> final(self).spec_poll_state(
                    d,
                ) == old(self).spec_poll_state(d)),
    {
        let found = self.find_poll_state(user_did);
        match found {
            Some(i) => {
                proof {
                    self.lemma_poll_state_lookup(i as int);
                }
                let st = &mut self.poll_states[i];
                st.last_poll_at = Some(now);
                st.posts_indexed = posts_indexed as i64;
                st.blocked_count = blocked as i64;
                proof {
                    self.lemma_poll_state_lookup(i as int);
                    assert forall|d: Seq<char>|
                        d != user_did@ implies #[trigger] self.has_poll_state(d) == old(
                        self,
                    ).has_poll_state(d) && (old(self).has_poll_state(d) ==> self.spec_poll_state(
                        d,
                    ) == old(self).spec_poll_state(d)) by {
                        lemma_poll_frame(*old(self), *self, user_did@, d);
                    }
                }
            },
            None => {
                self.poll_states.push(
                    PollState {
                        user_did: user_did.to_owned(),
                        last_cursor: None,
                        last_poll_at: Some(now),
                        last_backfill_poll_at: None,
                        posts_indexed: posts_indexed as i64,
                        total_posts_indexed: posts_indexed as i64,
                        blocked_count: blocked as i64,
                        cursor_open: true,
                    },
                );
                proof {
                    self.lemma_poll_state_lookup(self.poll_states@.len() - 1);
                    assert forall|d: Seq<char>|
                        d != user_did@ implies #[trigger] self.has_poll_state(d) == old(
                        self,
                    ).has_poll_state(d) && (old(self).has_poll_state(d) ==> self.spec_poll_state(
                        d,
                    ) == old(self).spec_poll_state(d)) by {
                        lemma_poll_frame(*old(self), *self, user_did@, d);
                    }
                }
            },
        }
    }

    /// Record a backfill-track poll: the cursor (possibly none), the backfill
    /// due-time and the running total move; the fresh due-time stays as it
    /// was. A poll that brought no cursor closes the backfill track.
    pub fn update_poll_state_backfill(
        &mut self,
        user_did: &str,
        cursor: Option<String>,
        new_posts: i32,
        now: i64,
    )
        requires
            old(self).wf(),
            new_posts >= 0,
        ensures
            final(self).wf(),
            final(self).rows == old(self).rows,
            final(self).deny == old(self).deny,
            final(self).cursors == old(self).cursors,
            final(self).user_configs == old(self).user_configs,
            final(self).user_filters == old(self).user_filters,
            final(self).has_poll_state(user_did@),
            ({
                let st = final(self).spec_poll_state(user_did@);
                &&& st.last_cursor == cursor
                &&& st.last_backfill_poll_at == Some(now)
                &&& st.cursor_open == cursor is Some
                // A backfill poll never touches the fresh-track due-time.
                &&& (old(self).has_poll_state(user_did@) ==> {
                    let prev = old(self).spec_poll_state(user_did@);
                    &&& st.last_poll_at == prev.last_poll_at
                    &&& st.total_posts_indexed == spec_add_saturating(
                        prev.total_posts_indexed,
                        new_posts as i64,
                    )
                })
                &&& (!old(self).has_poll_state(user_did@) ==> {
                    &&& st.last_poll_at is None
                    &&& st.total_posts_indexed == new_posts as i64
                })
            }),
            forall|d: Seq<char>|
                d != user_did@ ==> #[trigger] final(self).has_poll_state(d) == old(
                    self,
                ).has_poll_state(d) && (old(self).has_poll_state(d) ==> final(self).spec_poll_state(
                    d,
                ) == old(self).spec_poll_state(d)),
    {
        let found = self.find_poll_state(user_did);
        match found {
            Some(i) => {
                proof {
                    self.lemma_poll_state_lookup(i as int);
                }
                let has_cursor = cursor.is_some();
                let prev_total = self.poll_states[i].total_posts_indexed;
                let st = &mut self.poll_states[i];
                st.last_cursor = cursor;
                st.last_backfill_poll_at = Some(now);
                st.cursor_open = has_cursor;
                st.total_posts_indexed = add_saturating(prev_total, new_posts as i64);
                proof {
                    self.lemma_poll_state_lookup(i as int);
                    assert forall|d: Seq<char>|
                        d != user_did@ implies #[trigger] self.has_poll_state(d) == old(
                        self,
                    ).has_poll_state(d) && (old(self).has_poll_state(d) ==> self.spec_poll_state(
                        d,
                    ) == old(self).spec_poll_state(d)) by {
                        lemma_poll_frame(*old(self), *self, user_did@, d);
                    }
                }
            },
            None => {
                let has_cursor = cursor.is_some();
                self.poll_states.push(
                    PollState {
                        user_did: user_did.to_owned(),
                        last_cursor: cursor,
                        last_poll_at: None,
                        last_backfill_poll_at: Some(now),
                        posts_indexed: new_posts as i64,
                        total_posts_indexed: new_posts as i64,
                        blocked_count: 0,
                        cursor_open: has_cursor,
                    },
                );
                proof {
                    self.lemma_poll_state_lookup(self.poll_states@.len() - 1);
                    assert forall|d: Seq<char>|
                        d != user_did@ implies #[trigger] self.has_poll_state(d) == old(
                        self,
                    ).has_poll_state(d) && (old(self).has_poll_state(d) ==> self.spec_poll_state(
                        d,
                    ) == old(self).spec_poll_state(d)) by {
                        lemma_poll_frame(*old(self), *self, user_did@, d);
                    }
                }
            },
        }
    }

    /// Statistics of a user's polling.
    pub fn get_poll_stats(&self, user_did: &str) -> (r: Option<PollStats>)
        requires
            self.wf(),
        ensures
            match r {
                Some(st) => self.has_poll_state(user_did@) && {
                    let ps = self.spec_poll_state(user_did@);
                    &&& st.last_poll_at == ps.last_poll_at
                    &&& st.posts_indexed == ps.posts_indexed
                    &&& st.total_posts_indexed == ps.total_posts_indexed
                },
                None => !self.has_poll_state(user_did@),
            },
    {
        match self.find_poll_state(user_did) {
            None => None,
            Some(i) => {
                proof {
                    self.lemma_poll_state_lookup(i as int);
                }
                let st = &self.poll_states[i];
                Some(
                    PollStats {
                        last_poll_at: st.last_poll_at,
                        posts_indexed: st.posts_indexed,
                        total_posts_indexed: st.total_posts_indexed,
                    },
                )
            },
        }
    }
}

/// Addition on `i64`, saturating at the top.
pub open spec fn spec_add_saturating(a: i64, b: i64) -> i64 {
    if a + b > i64::MAX {
        i64::MAX
    } else if a + b < i64::MIN {
        i64::MIN
    } else {
        (a + b) as i64
    }
}

pub fn add_saturating(a: i64, b: i64) -> (r: i64)
    ensures
        r == spec_add_saturating(a, b),
{
    if b >= 0 {
        if a > i64::MAX - b {
            i64::MAX
        } else {
            a + b
        }
    } else {
        if a < i64::MIN - b {
            i64::MIN
        } else {
            a + b
        }
    }
}

/// Poll states of other users are untouched when the entry of the user with
/// DID `m` is updated in place or appended.
proof fn lemma_poll_frame(a: IndexStore, b: IndexStore, m: Seq<char>, d: Seq<char>)
    requires
        d != m,
        a.poll_states@.len() <= b.poll_states@.len() <= a.poll_states@.len() + 1,
        forall|j: int|
            0 <= j < a.poll_states@.len() ==> (#[trigger] b.poll_states@[j]).user_did@
                == a.poll_states@[j].user_did@,
        forall|j: int|
            0 <= j < a.poll_states@.len() && (#[trigger] a.poll_states@[j]).user_did@ != m
                ==> b.poll_states@[j] == a.poll_states@[j],
        b.poll_states@.len() == a.poll_states@.len() + 1 ==> b.poll_states@[b.poll_states@.len()
            - 1].user_did@ == m,
        forall|i: int, j: int|
            0 <= i < j < a.poll_states@.len() ==> (#[trigger] a.poll_states@[i]).user_did@ != (
            #[trigger] a.poll_states@[j]).user_did@,
    ensures
        b.has_poll_state(d) == a.has_poll_state(d),
        a.has_poll_state(d) ==> b.spec_poll_state(d) == a.spec_poll_state(d),
{
    if a.has_poll_state(d) {
        let ja = choose|j: int|
            0 <= j < a.poll_states@.len() && a.poll_states@[j].user_did@ == d;
        assert(b.poll_states@[ja].user_did@ == d);
        assert(b.has_poll_state(d));
        let jb = choose|j: int|
            0 <= j < b.poll_states@.len() && b.poll_states@[j].user_did@ == d;
        assert(jb < a.poll_states@.len());
        assert(a.poll_states@[jb].user_did@ == d);
        assert(ja == jb);
        assert(a.poll_states@[ja].user_did@ != m);
        assert(b.poll_states@[ja] == a.poll_states@[ja]);
    } else {
        if b.has_poll_state(d) {
            let jb = choose|j: int|
                0 <= j < b.poll_states@.len() && b.poll_states@[j].user_did@ == d;
            if jb < a.poll_states@.len() {
                assert(a.poll_states@[jb].user_did@ == d);
            }
        }
    }
}

/// The stored form of one configured feed.
pub open spec fn spec_config_of(feed: TimelineFeed) -> UserConfig {
    UserConfig {
        did: feed.did,
        feed_uri: feed.feed_uri,
        name: feed.name,
        description: feed.description,
        access_token: feed.oauth.access_token,
        refresh_token: feed.oauth.refresh_token,
        token_expires_at: feed.oauth.expires_at,
        pds_url: feed.oauth.pds_url,
        poll_interval_seconds: match feed.poll_interval {
            Some(s) => match duration_seconds_of(s@) {
                Some(d) => d,
                None => 30,
            },
            None => 30,
        },
        max_posts_per_poll: feed.max_posts_per_poll as i64,
    }
}

impl IndexStore {
    /// Whether a user's configuration is stored.
    pub open spec fn has_user_config(self, did: Seq<char>) -> bool {
        exists|i: int|
            0 <= i < self.user_configs@.len() && self.user_configs@[i].did@ == did
    }

    /// The stored configuration of a user; meaningful only when one exists.
    pub open spec fn spec_user_config(self, did: Seq<char>) -> UserConfig {
        let i = choose|i: int|
            0 <= i < self.user_configs@.len() && self.user_configs@[i].did@ == did;
        self.user_configs@[i]
    }

    proof fn lemma_user_config_lookup(self, i: int)
        requires
            forall|a: int, b: int|
                0 <= a < b < self.user_configs@.len() ==> (
                #[trigger] self.user_configs@[a]).did@ != (
                #[trigger] self.user_configs@[b]).did@,
            0 <= i < self.user_configs@.len(),
        ensures
            self.has_user_config(self.user_configs@[i].did@),
            self.spec_user_config(self.user_configs@[i].did@) == self.user_configs@[i],
    {
        let did = self.user_configs@[i].did@;
        assert(exists|j: int|
            0 <= j < self.user_configs@.len() && self.user_configs@[j].did@ == did);
        let j = choose|j: int|
            0 <= j < self.user_configs@.len() && self.user_configs@[j].did@ == did;
        if i < j {
            assert(self.user_configs@[i].did@ != self.user_configs@[j].did@);
        }
        if j < i {
            assert(self.user_configs@[j].did@ != self.user_configs@[i].did@);
        }
    }

    /// Persist one user's configuration, replacing any earlier one.
    #[verifier::loop_isolation(false)]
    pub fn sync_user_config(&mut self, feed: &TimelineFeed)
        requires
            old(self).wf(),
        ensures
            final(self).wf(),
            final(self).rows == old(self).rows,
            final(self).deny == old(self).deny,
            final(self).cursors == old(self).cursors,
            final(self).user_filters == old(self).user_filters,
            final(self).poll_states == old(self).poll_states,
            final(self).has_user_config(feed.did@),
            final(self).spec_user_config(feed.did@) == spec_config_of(*feed),
            forall|d: Seq<char>|
                d != feed.did@ ==> #[trigger] final(self).has_user_config(d) == old(
                    self,
                ).has_user_config(d),
            forall|d: Seq<char>|
                d != feed.did@ && old(self).has_user_config(d)
                    ==> #[trigger] final(self).spec_user_config(d) == old(self).spec_user_config(
                    d,
                ),
    {
        let poll_interval_seconds: i64 = match &feed.poll_interval {
            Some(s) => match crate::config::parse_duration_seconds(s.as_str()) {
                Some(d) => d,
                None => 30,
            },
            None => 30,
        };
        let row = UserConfig {
            did: feed.did.clone(),
            feed_uri: feed.feed_uri.clone(),
            name: feed.name.clone(),
            description: feed.description.clone(),
            access_token: feed.oauth.access_token.clone(),
            refresh_token: crate::store::clone_opt_string(&feed.oauth.refresh_token),
            token_expires_at: crate::store::clone_opt_string(&feed.oauth.expires_at),
            pds_url: feed.oauth.pds_url.clone(),
            poll_interval_seconds,
            max_posts_per_poll: feed.max_posts_per_poll as i64,
        };
        proof {
            assert(row == spec_config_of(*feed));
        }
        let n = self.user_configs.len();
        let mut i: usize = 0;
        while i < n
            invariant
                *self == *old(self),
                n == self.user_configs@.len(),
                0 <= i <= n,
                row == spec_config_of(*feed),
                forall|j: int|
                    0 <= j < i ==> (#[trigger] self.user_configs@[j]).did@ != feed.did@,
            decreases n - i,
        {
            if str_eq(self.user_configs[i].did.as_str(), feed.did.as_str()) {
                let slot = &mut self.user_configs[i];
                *slot = row;
                proof {
                    assert forall|a: int, b: int|
                        0 <= a < b < self.user_configs@.len() implies (
                    #[trigger] self.user_configs@[a]).did@ != (
                    #[trigger] self.user_configs@[b]).did@ by {
                        assert(self.user_configs@[a].did@ == old(self).user_configs@[a].did@);
                        assert(self.user_configs@[b].did@ == old(self).user_configs@[b].did@);
                    }
                    self.lemma_user_config_lookup(i as int);
                    assert forall|d: Seq<char>|
                        d != feed.did@ implies #[trigger] self.has_user_config(d) == old(
                        self,
                    ).has_user_config(d) by {
                        lemma_user_config_frame(*old(self), *self, feed.did@, d);
                    }
                    assert forall|d: Seq<char>|
                        d != feed.did@ && old(self).has_user_config(d) implies
                        #[trigger] self.spec_user_config(d) == old(self).spec_user_config(d) by {
                        lemma_user_config_frame(*old(self), *self, feed.did@, d);
                    }
                }
                return ;
            }
            i += 1;
        }
        self.user_configs.push(row);
        proof {
            assert forall|a: int, b: int|
                0 <= a < b < self.user_configs@.len() implies (
            #[trigger] self.user_configs@[a]).did@ != (
            #[trigger] self.user_configs@[b]).did@ by {
                if b == self.user_configs@.len() - 1 {
                    assert(self.user_configs@[a] == old(self).user_configs@[a]);
                } else {
                    assert(self.user_configs@[a] == old(self).user_configs@[a]);
                    assert(self.user_configs@[b] == old(self).user_configs@[b]);
                }
            }
            self.lemma_user_config_lookup(self.user_configs@.len() - 1);
            assert forall|d: Seq<char>|
                d != feed.did@ implies #[trigger] self.has_user_config(d) == old(
                self,
            ).has_user_config(d) by {
                lemma_user_config_frame(*old(self), *self, feed.did@, d);
            }
            assert forall|d: Seq<char>|
                d != feed.did@ && old(self).has_user_config(d) implies
                #[trigger] self.spec_user_config(d) == old(self).spec_user_config(d) by {
                lemma_user_config_frame(*old(self), *self, feed.did@, d);
            }
        }
    }

    /// Replace one user's stored filters with the configured blocked
    /// reposters; other users' entries stay.
    #[verifier::loop_isolation(false)]
    pub fn sync_user_filters(&mut self, user_did: &str, filters: &FilterConfig, now: i64)
        requires
            old(self).wf(),
        ensures
            final(self).wf(),
            final(self).rows == old(self).rows,
            final(self).deny == old(self).deny,
            final(self).cursors == old(self).cursors,
            final(self).user_configs == old(self).user_configs,
            final(self).poll_states == old(self).poll_states,
            ({
                let kept = old(self).user_filters@.filter(
                    |e: FilterEntry| e.user_did@ != user_did@,
                );
                let added = filters.blocked_reposters@.len();
                &&& final(self).user_filters@.len() == kept.len() + added
                &&& forall|i: int|
                    0 <= i < kept.len() ==> final(self).user_filters@[i] == kept[i]
                &&& forall|i: int|
                    0 <= i < added ==> {
                        let e = #[trigger] final(self).user_filters@[kept.len() + i];
                        &&& e.user_did@ == user_did@
                        &&& e.filter_type@ == "blocked_reposter"@
                        &&& e.filter_value == filters.blocked_reposters@[i]
                        &&& e.created_at == now
                    }
            }),
    {
        let ghost keep = |e: FilterEntry| e.user_did@ != user_did@;
        let mut kept: Vec<FilterEntry> = Vec::new();
        let n = self.user_filters.len();
        let mut i: usize = 0;
        while i < n
            invariant
                *self == *old(self),
                n == self.user_filters@.len(),
                0 <= i <= n,
                keep == (|e: FilterEntry| e.user_did@ != user_did@),
                kept@ == self.user_filters@.subrange(0, i as int).filter(keep),
            decreases n - i,
        {
            proof {
                let pre = self.user_filters@.subrange(0, i as int);
                assert(self.user_filters@.subrange(0, i + 1) =~= pre.push(
                    self.user_filters@[i as int],
                ));
                reveal(Seq::filter);
                assert(pre.push(self.user_filters@[i as int]).drop_last() =~= pre);
            }
            let e = &self.user_filters[i];
            if !str_eq(e.user_did.as_str(), user_did) {
                let copied = FilterEntry {
                    user_did: e.user_did.clone(),
                    filter_type: e.filter_type.clone(),
                    filter_value: e.filter_value.clone(),
                    created_at: e.created_at,
                };
                proof {
                    assert(copied == self.user_filters@[i as int]);
                }
                kept.push(copied);
            }
            i += 1;
        }
        proof {
            assert(self.user_filters@.subrange(0, n as int) =~= self.user_filters@);
        }
        let ghost kept_len = kept@.len();
        let mut j: usize = 0;
        while j < filters.blocked_reposters.len()
            invariant
                keep == (|e: FilterEntry| e.user_did@ != user_did@),
                kept_len == old(self).user_filters@.filter(keep).len(),
                0 <= j <= filters.blocked_reposters@.len(),
                kept@.len() == kept_len + j,
                forall|k: int|
                    0 <= k < kept_len ==> kept@[k] == old(self).user_filters@.filter(keep)[k],
                forall|k: int|
                    0 <= k < j ==> {
                        let e = #[trigger] kept@[kept_len + k];
                        &&& e.user_did@ == user_did@
                        &&& e.filter_type@ == "blocked_reposter"@
                        &&& e.filter_value == filters.blocked_reposters@[k]
                        &&& e.created_at == now
                    },
                *self == *old(self),
            decreases filters.blocked_reposters@.len() - j,
        {
            kept.push(
                FilterEntry {
                    user_did: user_did.to_owned(),
                    filter_type: String::from_str("blocked_reposter"),
                    filter_value: filters.blocked_reposters[j].clone(),
                    created_at: now,
                },
            );
            j += 1;
        }
        self.user_filters = kept;
    }

    /// Load one user's stored configuration.
    pub fn get_user_config(&self, user_did: &str) -> (r: Option<UserConfig>)
        requires
            self.wf(),
        ensures
            match r {
                Some(c) => self.has_user_config(user_did@) && c == self.spec_user_config(
                    user_did@,
                ),
                None => !self.has_user_config(user_did@),
            },
    {
        let n = self.user_configs.len();
        let mut i: usize = 0;
        while i < n
            invariant
                self.wf(),
                n == self.user_configs@.len(),
                0 <= i <= n,
                forall|j: int|
                    0 <= j < i ==> (#[trigger] self.user_configs@[j]).did@ != user_did@,
            decreases n - i,
        {
            if str_eq(self.user_configs[i].did.as_str(), user_did) {
                proof {
                    self.lemma_user_config_lookup(i as int);
                }
                let c = &self.user_configs[i];
                let copied = UserConfig {
                    did: c.did.clone(),
                    feed_uri: c.feed_uri.clone(),
                    name: c.name.clone(),
                    description: c.description.clone(),
                    access_token: c.access_token.clone(),
                    refresh_token: crate::store::clone_opt_string(&c.refresh_token),
                    token_expires_at: crate::store::clone_opt_string(&c.token_expires_at),
                    pds_url: c.pds_url.clone(),
                    poll_interval_seconds: c.poll_interval_seconds,
                    max_posts_per_poll: c.max_posts_per_poll,
                };
                proof {
                    assert(copied == self.user_configs@[i as int]);
                }
                return Some(copied);
            }
            i += 1;
        }
        None
    }

    /// Load one user's stored filters: the values of its blocked-reposter
    /// entries, in storage order.
    #[verifier::loop_isolation(false)]
    pub fn get_user_filters(&self, user_did: &str) -> (r: UserFilters)
        ensures
            r.blocked_reposters@ == self.user_filters@.filter(
                |e: FilterEntry| e.user_did@ == user_did@ && e.filter_type@ == "blocked_reposter"@,
            ).map_values(|e: FilterEntry| e.filter_value),
    {
        let ghost keep = |e: FilterEntry|
            e.user_did@ == user_did@ && e.filter_type@ == "blocked_reposter"@;
        let mut out: Vec<String> = Vec::new();
        let n = self.user_filters.len();
        let mut i: usize = 0;
        while i < n
            invariant
                n == self.user_filters@.len(),
                0 <= i <= n,
                keep == (|e: FilterEntry|
                    e.user_did@ == user_did@ && e.filter_type@ == "blocked_reposter"@),
                out@ == self.user_filters@.subrange(0, i as int).filter(keep).map_values(
                    |e: FilterEntry| e.filter_value,
                ),
            decreases n - i,
        {
            proof {
                let pre = self.user_filters@.subrange(0, i as int);
                assert(self.user_filters@.subrange(0, i + 1) =~= pre.push(
                    self.user_filters@[i as int],
                ));
                reveal(Seq::filter);
                assert(pre.push(self.user_filters@[i as int]).drop_last() =~= pre);
            }
            let e = &self.user_filters[i];
            if str_eq(e.user_did.as_str(), user_did) && str_eq(
                e.filter_type.as_str(),
                "blocked_reposter",
            ) {
                out.push(e.filter_value.clone());
                proof {
                    assert(out@ =~= self.user_filters@.subrange(0, i + 1).filter(keep).map_values(
                        |e2: FilterEntry| e2.filter_value,
                    ));
                }
            } else {
                proof {
                    assert(out@ =~= self.user_filters@.subrange(0, i + 1).filter(keep).map_values(
                        |e2: FilterEntry| e2.filter_value,
                    ));
                }
            }
            i += 1;
        }
        proof {
            assert(self.user_filters@.subrange(0, n as int) =~= self.user_filters@);
        }
        UserFilters { blocked_reposters: out }
    }

    /// Persist the whole timeline configuration: every feed's user
    /// configuration and filters.
    #[verifier::loop_isolation(false)]
    pub fn sync_config_to_db(&mut self, feeds: &TimelineFeeds, now: i64)
        requires
            old(self).wf(),
        ensures
            final(self).wf(),
            final(self).rows == old(self).rows,
            final(self).deny == old(self).deny,
            final(self).cursors == old(self).cursors,
            final(self).poll_states == old(self).poll_states,
            forall|k: int|
                0 <= k < feeds.timeline_feeds@.len() ==> final(self).has_user_config(
                    (#[trigger] feeds.timeline_feeds@[k]).did@,
                ),
    {
        let mut k: usize = 0;
        while k < feeds.timeline_feeds.len()
            invariant
                self.wf(),
                self.rows == old(self).rows,
                self.deny == old(self).deny,
                self.cursors == old(self).cursors,
                self.poll_states == old(self).poll_states,
                0 <= k <= feeds.timeline_feeds@.len(),
                forall|k2: int|
                    0 <= k2 < k ==> self.has_user_config(
                        (#[trigger] feeds.timeline_feeds@[k2]).did@,
                    ),
            decreases feeds.timeline_feeds@.len() - k,
        {
            let feed = &feeds.timeline_feeds[k];
            let ghost mid = *self;
            self.sync_user_config(feed);
            proof {
                assert forall|k2: int|
                    0 <= k2 < k implies self.has_user_config(
                    (#[trigger] feeds.timeline_feeds@[k2]).did@,
                ) by {
                    if feeds.timeline_feeds@[k2].did@ != feed.did@ {
                        assert(self.has_user_config(feeds.timeline_feeds@[k2].did@)
                            == mid.has_user_config(feeds.timeline_feeds@[k2].did@));
                    }
                }
            }
            self.sync_user_filters(feed.did.as_str(), &feed.filters, now);
            k += 1;
        }
    }
}

/// User configurations of other users are untouched when one user's entry is
/// updated in place or appended.
proof fn lemma_user_config_frame(a: IndexStore, b: IndexStore, m: Seq<char>, d: Seq<char>)
    requires
        d != m,
        a.user_configs@.len() <= b.user_configs@.len() <= a.user_configs@.len() + 1,
        forall|j: int|
            0 <= j < a.user_configs@.len() ==> (#[trigger] b.user_configs@[j]).did@
                == a.user_configs@[j].did@,
        forall|j: int|
            0 <= j < a.user_configs@.len() && (#[trigger] a.user_configs@[j]).did@ != m
                ==> b.user_configs@[j] == a.user_configs@[j],
        b.user_configs@.len() == a.user_configs@.len() + 1 ==> b.user_configs@[b.user_configs@.len()
            - 1].did@ == m,
        forall|i: int, j: int|
            0 <= i < j < a.user_configs@.len() ==> (#[trigger] a.user_configs@[i]).did@ != (
            #[trigger] a.user_configs@[j]).did@,
    ensures
        b.has_user_config(d) == a.has_user_config(d),
        a.has_user_config(d) ==> b.spec_user_config(d) == a.spec_user_config(d),
{
    if a.has_user_config(d) {
        let ja = choose|j: int|
            0 <= j < a.user_configs@.len() && a.user_configs@[j].did@ == d;
        assert(b.user_configs@[ja].did@ == d);
        assert(b.has_user_config(d));
        let jb = choose|j: int|
            0 <= j < b.user_configs@.len() && b.user_configs@[j].did@ == d;
        assert(jb < a.user_configs@.len());
        assert(a.user_configs@[jb].did@ == d);
        assert(ja == jb);
        assert(a.user_configs@[ja].did@ != m);
        assert(b.user_configs@[ja] == a.user_configs@[ja]);
    } else {
        if b.has_user_config(d) {
            let jb = choose|j: int|
                0 <= j < b.user_configs@.len() && b.user_configs@[j].did@ == d;
            if jb < a.user_configs@.len() {
                assert(a.user_configs@[jb].did@ == d);
            }
        }
    }
}

} // verus!
