use vstd::prelude::*;

verus! {

/// One matcher of a feed, as configuration states it.
#[derive(Debug)]
pub enum MatcherConfig {
    Equal { path: String, value: String, aturi: Option<String> },
    Prefix { path: String, value: String, aturi: Option<String> },
    Sequence { path: String, values: Vec<String>, aturi: Option<String> },
    /// A script-engine matcher. No script engine is embedded here, so a feed
    /// that asks for one is rejected when the configuration is loaded.
    Script { path: String },
}

/// How a ranked feed orders its rows. The gravity of a popular feed is kept
/// in thousandths.
#[derive(Debug, Clone)]
pub enum FeedQuery {
    Simple { limit: u32 },
    Popular { gravity_milli: u32, limit: u32 },
}

/// One configured feed.
#[derive(Debug)]
pub struct FeedConfig {
    pub uri: String,
    pub deny: Option<String>,
    pub allow: Vec<String>,
    pub matchers: Vec<MatcherConfig>,
    pub query: FeedQuery,
}

/// The configured feeds.
#[derive(Debug)]
pub struct Feeds {
    pub feeds: Vec<FeedConfig>,
}

} // verus!
