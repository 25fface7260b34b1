use vstd::prelude::*;
use crate::config::{duration_seconds_of, parse_duration_seconds};
use crate::errors::TimelineFilterError;
use crate::strutil::str_eq;

verus! {

/// The configured timeline feeds, one per user.
#[derive(Debug)]
pub struct TimelineFeeds {
    pub timeline_feeds: Vec<TimelineFeed>,
}

/// One user's timeline feed: identity, credentials, filters and cadences.
#[derive(Debug)]
pub struct TimelineFeed {
    pub did: String,
    pub feed_uri: String,
    pub name: String,
    pub description: String,
    pub oauth: OAuthConfig,
    pub filters: FilterConfig,
    pub poll_interval: Option<String>,
    pub max_posts_per_poll: u32,
    pub backfill_limit: Option<u32>,
}

/// Credentials for reading a user's timeline.
#[derive(Debug)]
pub struct OAuthConfig {
    pub access_token: String,
    pub refresh_token: Option<String>,
    pub expires_at: Option<String>,
    pub pds_url: String,
}

/// Filtering rules for timeline content: DIDs whose reposts are dropped.
#[derive(Debug)]
pub struct FilterConfig {
    pub blocked_reposters: Vec<String>,
}

/// The name of what chrono's RFC 3339 parser yields for a timestamp string,
/// as microseconds since the epoch.
pub uninterp spec fn rfc3339_micros(s: Seq<char>) -> Option<i64>;

/// Relies on chrono::DateTime::parse_from_rfc3339 and timestamp_micros: the
/// parse of a timestamp depends on the text alone.
#[verifier::external_body]
pub fn parse_rfc3339_micros(s: &str) -> (r: Option<i64>)
    ensures
        r == rfc3339_micros(s@),
{
    match chrono::DateTime::parse_from_rfc3339(s) {
        Ok(d) => Some(d.timestamp_micros()),
        Err(_) => None,
    }
}

/// Relies on chrono::Utc::now: the current wall-clock time, as microseconds
/// since the epoch. Nothing is promised of it.
#[verifier::external_body]
pub fn now_micros() -> i64 {
    chrono::Utc::now().timestamp_micros()
}

pub open spec fn is_ascii_space(c: char) -> bool {
    c == ' ' || c == '\t' || c == '\n' || c == '\r'
}

/// The string holds something besides whitespace.
pub open spec fn has_non_space(s: Seq<char>) -> bool {
    exists|i: int| 0 <= i < s.len() && !is_ascii_space(#[trigger] s[i])
}

fn contains_non_space(s: &str) -> (r: bool)
    ensures
        r == has_non_space(s@),
{
    let len = s.unicode_len();
    let mut i: usize = 0;
    while i < len
        invariant
            len == s@.len(),
            0 <= i <= len,
            forall|j: int| 0 <= j < i ==> is_ascii_space(#[trigger] s@[j]),
        decreases len - i,
    {
        let c = s.get_char(i);
        if !(c == ' ' || c == '\t' || c == '\n' || c == '\r') {
            proof {
                assert(!is_ascii_space(s@[i as int]));
            }
            return true;
        }
        i += 1;
    }
    false
}

impl OAuthConfig {
    /// What a valid credential set looks like: a nonblank access token, an
    /// `http`/`https` PDS URL, and an expiry that parses if present.
    pub open spec fn spec_valid(self) -> bool {
        &&& has_non_space(self.access_token@)
        &&& ("http://"@.is_prefix_of(self.pds_url@) || "https://"@.is_prefix_of(self.pds_url@))
        &&& match self.expires_at {
            None => true,
            Some(e) => rfc3339_micros(e@) is Some,
        }
    }

    /// Check the credentials; `Ok` exactly on valid ones.
    pub fn validate(&self) -> (r: Result<(), TimelineFilterError>)
        ensures
            r is Ok <==> self.spec_valid(),
    {
        if !contains_non_space(self.access_token.as_str()) {
            return Err(TimelineFilterError::new("access_token cannot be empty"));
        }
        if !crate::strutil::str_starts_with(self.pds_url.as_str(), "http://")
            && !crate::strutil::str_starts_with(self.pds_url.as_str(), "https://") {
            return Err(TimelineFilterError::new("invalid pds_url format"));
        }
        match &self.expires_at {
            None => Ok(()),
            Some(e) => match parse_rfc3339_micros(e.as_str()) {
                Some(_) => Ok(()),
                None => Err(TimelineFilterError::new("invalid expires_at format")),
            },
        }
    }

    /// Whether the access token has expired by `now_us` (microseconds). An
    /// absent or unreadable expiry counts as not expired.
    pub fn is_expired_at(&self, now_us: i64) -> (r: bool)
        ensures
            r == match self.expires_at {
                Some(e) => match rfc3339_micros(e@) {
                    Some(t) => now_us >= t,
                    None => false,
                },
                None => false,
            },
    {
        match &self.expires_at {
            Some(e) => match parse_rfc3339_micros(e.as_str()) {
                Some(t) => now_us >= t,
                None => false,
            },
            None => false,
        }
    }

    /// Whether the access token has expired now. An absent or unreadable
    /// expiry counts as not expired, whatever the clock says.
    pub fn is_expired(&self) -> (r: bool)
        ensures
            match self.expires_at {
                Some(e) => rfc3339_micros(e@) is None ==> !r,
                None => !r,
            },
    {
        let now = now_micros();
        self.is_expired_at(now)
    }
}

impl FilterConfig {
    /// Whether a DID's reposts are filtered out.
    pub fn is_reposter_blocked(&self, did: &str) -> (r: bool)
        ensures
            r == exists|i: int|
                0 <= i < self.blocked_reposters@.len() && (
                #[trigger] self.blocked_reposters@[i])@ == did@,
    {
        let mut i: usize = 0;
        while i < self.blocked_reposters.len()
            invariant
                0 <= i <= self.blocked_reposters@.len(),
                forall|j: int|
                    0 <= j < i ==> (#[trigger] self.blocked_reposters@[j])@ != did@,
            decreases self.blocked_reposters@.len() - i,
        {
            if str_eq(self.blocked_reposters[i].as_str(), did) {
                return true;
            }
            i += 1;
        }
        false
    }

    /// Every blocked entry names a DID.
    pub open spec fn spec_valid(self) -> bool {
        forall|i: int|
            0 <= i < self.blocked_reposters@.len() ==> "did:"@.is_prefix_of(
                (#[trigger] self.blocked_reposters@[i])@,
            )
    }

    /// Check the filters; `Ok` exactly when every blocked entry is a DID.
    pub fn validate(&self) -> (r: Result<(), TimelineFilterError>)
        ensures
            r is Ok <==> self.spec_valid(),
    {
        let mut i: usize = 0;
        while i < self.blocked_reposters.len()
            invariant
                0 <= i <= self.blocked_reposters@.len(),
                forall|j: int|
                    0 <= j < i ==> "did:"@.is_prefix_of(
                        (#[trigger] self.blocked_reposters@[j])@,
                    ),
            decreases self.blocked_reposters@.len() - i,
        {
            if !crate::strutil::str_starts_with(self.blocked_reposters[i].as_str(), "did:") {
                return Err(TimelineFilterError::new("invalid DID in blocked_reposters"));
            }
            i += 1;
        }
        Ok(())
    }
}

/// The default number of posts fetched per poll.
pub fn default_max_posts() -> (r: u32)
    ensures
        r == 50,
{
    50
}

/// The default cap on posts indexed during backfill.
pub fn default_backfill_limit() -> (r: Option<u32>)
    ensures
        r == Some(500u32),
{
    Some(500)
}

impl TimelineFeed {
    /// What a valid feed configuration looks like: a DID, an AT-URI, valid
    /// credentials and filters, a parsable poll interval if present, a post
    /// count between one and one hundred, and a nonzero backfill cap if one
    /// is set.
    pub open spec fn spec_valid(self) -> bool {
        &&& "did:"@.is_prefix_of(self.did@)
        &&& "at://"@.is_prefix_of(self.feed_uri@)
        &&& self.oauth.spec_valid()
        &&& match self.poll_interval {
            None => true,
            Some(s) => duration_seconds_of(s@) is Some,
        }
        &&& 1 <= self.max_posts_per_poll <= 100
        &&& self.backfill_limit != Some(0u32)
        &&& self.filters.spec_valid()
    }

    /// The per-user backfill cadence, parsed from the configuration.
    pub fn poll_interval_duration(&self) -> (r: Option<i64>)
        ensures
            r == match self.poll_interval {
                None => None,
                Some(s) => duration_seconds_of(s@),
            },
    {
        match &self.poll_interval {
            None => None,
            Some(s) => parse_duration_seconds(s.as_str()),
        }
    }

    /// Check the configuration; `Ok` exactly on valid ones.
    pub fn validate(&self) -> (r: Result<(), TimelineFilterError>)
        ensures
            r is Ok <==> self.spec_valid(),
    {
        self.validate_with_cleanup_age(None)
    }

    /// Check the configuration. The retention age, when given, only tunes
    /// advice about the backfill cap; it never changes what is accepted.
    pub fn validate_with_cleanup_age(&self, cleanup_max_age_hours: Option<i64>) -> (r: Result<
        (),
        TimelineFilterError,
    >)
        ensures
            r is Ok <==> self.spec_valid(),
    {
        let _ = cleanup_max_age_hours;
        if !crate::strutil::str_starts_with(self.did.as_str(), "did:") {
            return Err(TimelineFilterError::new("invalid DID format"));
        }
        if !crate::strutil::str_starts_with(self.feed_uri.as_str(), "at://") {
            return Err(TimelineFilterError::new("invalid feed_uri format"));
        }
        if let Err(e) = self.oauth.validate() {
            return Err(e);
        }
        match &self.poll_interval {
            None => {},
            Some(s) => {
                if parse_duration_seconds(s.as_str()).is_none() {
                    return Err(TimelineFilterError::new("invalid poll_interval"));
                }
            },
        }
        if self.max_posts_per_poll == 0 {
            return Err(TimelineFilterError::new("max_posts_per_poll must be greater than 0"));
        }
        if self.max_posts_per_poll > 100 {
            return Err(TimelineFilterError::new("max_posts_per_poll cannot exceed 100"));
        }
        match self.backfill_limit {
            Some(limit) => {
                if limit == 0 {
                    return Err(
                        TimelineFilterError::new(
                            "backfill_limit must be greater than 0 or null for unlimited",
                        ),
                    );
                }
            },
            None => {},
        }
        if let Err(e) = self.filters.validate() {
            return Err(e);
        }
        Ok(())
    }
}

impl TimelineFeeds {
    /// The first configured feed of a user, if any.
    pub fn get_by_did(&self, did: &str) -> (r: Option<&TimelineFeed>)
        ensures
            match r {
                Some(f) => exists|i: int|
                    {
                        &&& 0 <= i < self.timeline_feeds@.len()
                        &&& (#[trigger] self.timeline_feeds@[i]).did@ == did@
                        &&& *f == self.timeline_feeds@[i]
                        &&& forall|j: int|
                            0 <= j < i ==> (#[trigger] self.timeline_feeds@[j]).did@ != did@
                    },
                None => forall|i: int|
                    0 <= i < self.timeline_feeds@.len() ==> (
                    #[trigger] self.timeline_feeds@[i]).did@ != did@,
            },
    {
        let mut i: usize = 0;
        while i < self.timeline_feeds.len()
            invariant
                0 <= i <= self.timeline_feeds@.len(),
                forall|j: int|
                    0 <= j < i ==> (#[trigger] self.timeline_feeds@[j]).did@ != did@,
            decreases self.timeline_feeds@.len() - i,
        {
            if str_eq(self.timeline_feeds[i].did.as_str(), did) {
                return Some(&self.timeline_feeds[i]);
            }
            i += 1;
        }
        None
    }

    /// The first configured feed with a given URI, if any.
    pub fn get_by_feed_uri(&self, feed_uri: &str) -> (r: Option<&TimelineFeed>)
        ensures
            match r {
                Some(f) => exists|i: int|
                    {
                        &&& 0 <= i < self.timeline_feeds@.len()
                        &&& (#[trigger] self.timeline_feeds@[i]).feed_uri@ == feed_uri@
                        &&& *f == self.timeline_feeds@[i]
                        &&& forall|j: int|
                            0 <= j < i ==> (#[trigger] self.timeline_feeds@[j]).feed_uri@
                                != feed_uri@
                    },
                None => forall|i: int|
                    0 <= i < self.timeline_feeds@.len() ==> (
                    #[trigger] self.timeline_feeds@[i]).feed_uri@ != feed_uri@,
            },
    {
        let mut i: usize = 0;
        while i < self.timeline_feeds.len()
            invariant
                0 <= i <= self.timeline_feeds@.len(),
                forall|j: int|
                    0 <= j < i ==> (#[trigger] self.timeline_feeds@[j]).feed_uri@ != feed_uri@,
            decreases self.timeline_feeds@.len() - i,
        {
            if str_eq(self.timeline_feeds[i].feed_uri.as_str(), feed_uri) {
                return Some(&self.timeline_feeds[i]);
            }
            i += 1;
        }
        None
    }

    /// Whether no feed is configured.
    pub fn is_empty(&self) -> (r: bool)
        ensures
            r == (self.timeline_feeds@.len() == 0),
    {
        self.timeline_feeds.len() == 0
    }

    /// The number of configured feeds.
    pub fn len(&self) -> (r: usize)
        ensures
            r == self.timeline_feeds@.len(),
    {
        self.timeline_feeds.len()
    }

    /// Check every configured feed; `Ok` exactly when all are valid.
    pub fn validate_all(&self, cleanup_max_age_hours: Option<i64>) -> (r: Result<
        (),
        TimelineFilterError,
    >)
        ensures
            r is Ok <==> forall|i: int|
                0 <= i < self.timeline_feeds@.len() ==> (
                #[trigger] self.timeline_feeds@[i]).spec_valid(),
    {
        let mut i: usize = 0;
        while i < self.timeline_feeds.len()
            invariant
                0 <= i <= self.timeline_feeds@.len(),
                forall|j: int|
                    0 <= j < i ==> (#[trigger] self.timeline_feeds@[j]).spec_valid(),
            decreases self.timeline_feeds@.len() - i,
        {
            if let Err(e) = self.timeline_feeds[i].validate_with_cleanup_age(
                cleanup_max_age_hours,
            ) {
                return Err(e);
            }
            i += 1;
        }
        Ok(())
    }
}

} // verus!
