use vstd::prelude::*;
use crate::json::JsonValue;
use crate::jsonpath::{spec_parse_path, string_nodes, views_of, JsonPath};
use crate::strutil::{
    find_first_from, is_first_occurrence_from, lower_of, lowercase, occurs_at, occurs_from,
    str_eq, str_starts_with,
};

verus! {

/// The operation a match asks the index to perform.
#[derive(Debug, Clone, PartialEq, Eq, Structural)]
pub enum MatchOperation {
    Upsert,
    Update,
}

/// A matched event: the operation and the canonical AT-URI to store.
#[derive(Debug, Clone)]
pub struct Match(pub MatchOperation, pub String);

impl Match {
    pub fn upsert(aturi: &str) -> (r: Match)
        ensures
            r.0 == MatchOperation::Upsert,
            r.1@ == aturi@,
    {
        Match(MatchOperation::Upsert, aturi.to_owned())
    }

    pub fn update(aturi: &str) -> (r: Match)
        ensures
            r.0 == MatchOperation::Update,
            r.1@ == aturi@,
    {
        Match(MatchOperation::Update, aturi.to_owned())
    }
}

/// A matcher could not be built or could not finish a match.
#[derive(Debug)]
pub struct MatchError {
    pub message: String,
}

impl MatchError {
    pub fn new(message: &str) -> (r: MatchError)
        ensures
            r.message@ == message@,
    {
        MatchError { message: message.to_owned() }
    }
}

/// The words from `i` on all occur in the text, scanning left-to-right: each
/// word is found at its first occurrence at or after `from`, and the next
/// word's scan starts just past that match.
pub open spec fn seq_found_from(
    words: Seq<Seq<char>>,
    text: Seq<char>,
    i: int,
    from: int,
) -> bool
    decreases words.len() - i,
    when 0 <= i <= words.len()
{
    if i == words.len() {
        true
    } else {
        exists|p: int|
            #![trigger is_first_occurrence_from(text, words[i], from, p)]
            is_first_occurrence_from(text, words[i], from, p) && seq_found_from(
                words,
                text,
                i + 1,
                p + 1,
            )
    }
}

/// A nonempty word list matches a text when the left-to-right scan finds
/// every word at a strictly increasing position, each found just past the
/// previous word's match, and reaches the last word.
pub open spec fn sequence_found(words: Seq<Seq<char>>, text: Seq<char>) -> bool {
    words.len() > 0 && seq_found_from(words, text, 0, 0)
}

/// A pattern has exactly one first occurrence at or after a position.
proof fn lemma_first_occurrence_from_unique(
    text: Seq<char>,
    pat: Seq<char>,
    from: int,
    p1: int,
    p2: int,
)
    requires
        is_first_occurrence_from(text, pat, from, p1),
        is_first_occurrence_from(text, pat, from, p2),
    ensures
        p1 == p2,
{
    if p1 < p2 {
        assert(occurs_at(text, pat, p1));
    }
    if p2 < p1 {
        assert(occurs_at(text, pat, p2));
    }
}

/// Whether every word occurs in the text at a strictly increasing position,
/// each one found scanning left-to-right from just past the previous word's
/// match.
#[verifier::loop_isolation(false)]
pub fn sequence_matches(sequence: &[String], text: &str) -> (r: bool)
    ensures
        r == sequence_found(views_of(sequence@), text@),
{
    let ghost words = views_of(sequence@);
    if sequence.len() == 0 {
        return false;
    }
    let text_len = text.unicode_len();
    let mut i: usize = 0;
    let mut from: usize = 0;
    while i < sequence.len()
        invariant
            text_len == text@.len(),
            0 <= i <= sequence@.len(),
            seq_found_from(words, text@, 0, 0) == seq_found_from(
                words,
                text@,
                i as int,
                from as int,
            ),
        decreases sequence@.len() - i,
    {
        match find_first_from(text, sequence[i].as_str(), from) {
            None => {
                proof {
                    assert forall|p: int|
                        #![trigger is_first_occurrence_from(text@, words[i as int], from as int, p)]
                        !is_first_occurrence_from(text@, words[i as int], from as int, p) by {
                        if occurs_at(text@, words[i as int], p) && p >= from as int {
                            assert(occurs_from(text@, words[i as int], from as int));
                        }
                    }
                    assert(!seq_found_from(words, text@, i as int, from as int));
                }
                return false;
            },
            Some(p) => {
                proof {
                    assert(is_first_occurrence_from(text@, words[i as int], from as int, p as int));
                    assert(seq_found_from(words, text@, i as int, from as int) == seq_found_from(
                        words,
                        text@,
                        i + 1,
                        p as int + 1,
                    )) by {
                        if seq_found_from(words, text@, i as int, from as int) {
                            let p2 = choose|p2: int|
                                #![trigger is_first_occurrence_from(
                                    text@,
                                    words[i as int],
                                    from as int,
                                    p2,
                                )]
                                is_first_occurrence_from(text@, words[i as int], from as int, p2)
                                    && seq_found_from(words, text@, i + 1, p2 + 1);
                            lemma_first_occurrence_from_unique(
                                text@,
                                words[i as int],
                                from as int,
                                p2,
                                p as int,
                            );
                        }
                    }
                }
                if p == text_len {
                    // Only an empty word matches at the text's very end; the
                    // next scan would start past it.
                    if i + 1 == sequence.len() {
                        return true;
                    }
                    proof {
                        assert forall|p2: int|
                            #![trigger is_first_occurrence_from(text@, words[i + 1], p as int + 1, p2)]
                            !is_first_occurrence_from(text@, words[i + 1], p as int + 1, p2) by {
                            if occurs_at(text@, words[i + 1], p2) {
                                assert(p2 + words[i + 1].len() <= text@.len());
                            }
                        }
                        assert(!seq_found_from(words, text@, i + 1, p as int + 1));
                    }
                    return false;
                }
                from = p + 1;
            },
        }
        i += 1;
    }
    true
}

/// The view of an optional parsed path.
pub open spec fn opt_path_view(p: Option<JsonPath>) -> Option<Seq<crate::jsonpath::SpecSeg>> {
    match p {
        Some(jp) => Some(jp@),
        None => None,
    }
}

/// A lowered string that names a record: it starts with the scheme of AT-URIs.
pub open spec fn at_prefix(s: Seq<char>) -> bool {
    "at://"@.is_prefix_of(s)
}

/// The first node, from `k` on, whose lowered text is an AT-URI.
pub open spec fn first_at_node(nodes: Seq<Seq<char>>, k: int) -> Option<Seq<char>>
    decreases nodes.len() - k,
    when 0 <= k <= nodes.len()
{
    if k == nodes.len() {
        None
    } else if at_prefix(lower_of(nodes[k])) {
        Some(lower_of(nodes[k]))
    } else {
        first_at_node(nodes, k + 1)
    }
}

pub open spec fn opt_get(o: Option<JsonValue>, key: Seq<char>) -> Option<JsonValue> {
    match o {
        Some(x) => crate::json::spec_get(x, key),
        None => None,
    }
}

pub open spec fn opt_as_str(o: Option<JsonValue>) -> Option<Seq<char>> {
    crate::json::spec_as_str(o)
}

/// The AT-URI derived from the event itself: for a post, built from the DID,
/// the collection and the record key; for a like, the liked record's URI.
pub open spec fn spec_derive_aturi(v: JsonValue) -> Option<Seq<char>> {
    let commit = crate::json::spec_get(v, "commit"@);
    let rtype = opt_as_str(opt_get(opt_get(commit, "record"@), "$type"@));
    if rtype == Some("app.bsky.feed.post"@) {
        let did = opt_as_str(crate::json::spec_get(v, "did"@));
        let coll = opt_as_str(opt_get(commit, "collection"@));
        let rkey = opt_as_str(opt_get(commit, "rkey"@));
        if did is Some && coll is Some && rkey is Some {
            Some(
                "at://"@ + did.unwrap() + "/"@ + coll.unwrap() + "/"@ + rkey.unwrap(),
            )
        } else {
            None
        }
    } else if rtype == Some("app.bsky.feed.like"@) {
        opt_as_str(opt_get(opt_get(opt_get(commit, "record"@), "subject"@), "uri"@))
    } else {
        None
    }
}

/// The AT-URI a match stores: the first AT-URI under the configured path if
/// one is configured and yields one, otherwise the URI derived from the event.
pub open spec fn spec_extract_aturi(
    ap: Option<Seq<crate::jsonpath::SpecSeg>>,
    v: JsonValue,
) -> Option<Seq<char>> {
    let direct = match ap {
        Some(segs) => first_at_node(string_nodes(v, segs, 0), 0),
        None => None,
    };
    match direct {
        Some(u) => Some(u),
        None => spec_derive_aturi(v),
    }
}

/// Derive the canonical AT-URI for a matched event.
#[verifier::loop_isolation(false)]
pub fn extract_aturi(aturi: Option<&JsonPath>, event_value: &JsonValue) -> (r: Option<String>)
    ensures
        match r {
            Some(u) => spec_extract_aturi(
                match aturi {
                    Some(p) => Some(p@),
                    None => None,
                },
                *event_value,
            ) == Some(u@),
            None => spec_extract_aturi(
                match aturi {
                    Some(p) => Some(p@),
                    None => None,
                },
                *event_value,
            ) is None,
        },
{
    if let Some(p) = aturi {
        let nodes = p.query_strings(event_value);
        let ghost gnodes = string_nodes(*event_value, p@, 0);
        let mut k: usize = 0;
        while k < nodes.len()
            invariant
                0 <= k <= nodes@.len(),
                first_at_node(gnodes, 0) == first_at_node(gnodes, k as int),
            decreases nodes@.len() - k,
        {
            let low = lowercase(nodes[k].as_str());
            if str_starts_with(low.as_str(), "at://") {
                return Some(low);
            }
            k += 1;
        }
    }
    derive_aturi(event_value)
}

/// Build the AT-URI from the event: `at://{did}/{collection}/{rkey}` for a
/// post, the liked record's URI for a like.
fn derive_aturi(v: &JsonValue) -> (r: Option<String>)
    ensures
        match r {
            Some(u) => spec_derive_aturi(*v) == Some(u@),
            None => spec_derive_aturi(*v) is None,
        },
{
    let commit = v.get("commit");
    let rtype: Option<&String> = match commit {
        Some(c) => match c.get("record") {
            Some(rec) => match rec.get("$type") {
                Some(t) => t.as_str(),
                None => None,
            },
            None => None,
        },
        None => None,
    };
    match rtype {
        None => None,
        Some(t) => {
            if str_eq(t.as_str(), "app.bsky.feed.post") {
                let did = match v.get("did") {
                    Some(d) => d.as_str(),
                    None => None,
                };
                let coll = match commit {
                    Some(c) => match c.get("collection") {
                        Some(x) => x.as_str(),
                        None => None,
                    },
                    None => None,
                };
                let rkey = match commit {
                    Some(c) => match c.get("rkey") {
                        Some(x) => x.as_str(),
                        None => None,
                    },
                    None => None,
                };
                match (did, coll, rkey) {
                    (Some(d), Some(cl), Some(rk)) => {
                        let mut uri = String::from_str("at://");
                        uri.append(d.as_str());
                        uri.append("/");
                        uri.append(cl.as_str());
                        uri.append("/");
                        uri.append(rk.as_str());
                        Some(uri)
                    },
                    _ => None,
                }
            } else if str_eq(t.as_str(), "app.bsky.feed.like") {
                match commit {
                    Some(c) => match c.get("record") {
                        Some(rec) => match rec.get("subject") {
                            Some(sub) => match sub.get("uri") {
                                Some(u) => match u.as_str() {
                                    Some(s) => Some(s.clone()),
                                    None => None,
                                },
                                None => None,
                            },
                            None => None,
                        },
                        None => None,
                    },
                    None => None,
                }
            } else {
                None
            }
        },
    }
}

/// Matches when any string the path selects equals the configured value,
/// both compared lowercase; the value is lowered when the matcher is built.
#[derive(Debug)]
pub struct EqualsMatcher {
    pub expected: String,
    pub path: JsonPath,
    pub aturi_path: Option<JsonPath>,
}

/// Matches when any string the path selects starts with the configured
/// prefix, both compared lowercase; the prefix is lowered when the matcher
/// is built.
#[derive(Debug)]
pub struct PrefixMatcher {
    pub prefix: String,
    pub path: JsonPath,
    pub aturi_path: Option<JsonPath>,
}

/// Matches when any string the path selects contains every configured word
/// at strictly increasing positions, scanning left-to-right, all compared
/// lowercase; the words are lowered when the matcher is built.
#[derive(Debug)]
pub struct SequenceMatcher {
    pub expected: Vec<String>,
    pub path: JsonPath,
    pub aturi_path: Option<JsonPath>,
}

/// The views of a word list, each lowered.
pub open spec fn lowered_views(ss: Seq<String>) -> Seq<Seq<char>> {
    ss.map_values(|t: String| lower_of(t@))
}

/// An optional path parses, or is absent.
pub open spec fn opt_path_ok(aturi: Option<String>) -> bool {
    match aturi {
        None => true,
        Some(a) => spec_parse_path(a@) is Some,
    }
}

/// A parsed optional path corresponds to its configured text.
pub open spec fn opt_paths_match(p: Option<JsonPath>, s: Option<String>) -> bool {
    match (p, s) {
        (None, None) => true,
        (Some(jp), Some(ss)) => Some(jp@) == spec_parse_path(ss@),
        _ => false,
    }
}

/// Parse an optional AT-URI path.
fn parse_opt_path(aturi: &Option<String>) -> (r: Result<Option<JsonPath>, MatchError>)
    ensures
        match r {
            Ok(p) => opt_paths_match(p, *aturi),
            Err(_) => !opt_path_ok(*aturi),
        },
{
    match aturi {
        None => Ok(None),
        Some(a) => match JsonPath::parse(a.as_str()) {
            Some(p) => Ok(Some(p)),
            None => Err(MatchError::new("cannot parse aturi jsonpath")),
        },
    }
}

impl EqualsMatcher {
    /// Build the matcher from its configured value and paths; fails exactly
    /// when a path does not parse.
    pub fn new(expected: &str, path: &str, aturi: &Option<String>) -> (r: Result<
        EqualsMatcher,
        MatchError,
    >)
        ensures
            match r {
                Ok(m) => {
                    &&& Some(m.path@) == spec_parse_path(path@)
                    &&& m.expected@ == lower_of(expected@)
                    &&& opt_paths_match(m.aturi_path, *aturi)
                },
                Err(_) => spec_parse_path(path@) is None || !opt_path_ok(*aturi),
            },
    {
        match JsonPath::parse(path) {
            None => Err(MatchError::new("cannot parse path")),
            Some(p) => match parse_opt_path(aturi) {
                Err(e) => Err(e),
                Ok(ap) => Ok(
                    EqualsMatcher { expected: lowercase(expected), path: p, aturi_path: ap },
                ),
            },
        }
    }

    /// Whether the event matches: some selected string, lowered, equals the
    /// value held here, which construction lowered.
    pub open spec fn spec_hit(self, v: JsonValue) -> bool {
        exists|k: int|
            0 <= k < string_nodes(v, self.path@, 0).len() && lower_of(
                #[trigger] string_nodes(v, self.path@, 0)[k],
            ) == self.expected@
    }

    /// Decide the event; on a hit the result carries the derived AT-URI, and
    /// the match fails when no AT-URI can be derived.
    #[verifier::loop_isolation(false)]
    pub fn matches(&self, value: &JsonValue) -> (r: Result<Option<Match>, MatchError>)
        ensures
            !self.spec_hit(*value) ==> r matches Ok(None),
            self.spec_hit(*value) ==> match spec_extract_aturi(
                opt_path_view(self.aturi_path),
                *value,
            ) {
                Some(u) => r matches Ok(Some(m)) && m.0 == MatchOperation::Upsert && m.1@ == u,
                None => r is Err,
            },
    {
        let nodes = self.path.query_strings(value);
        let ghost gnodes = string_nodes(*value, self.path@, 0);
        let mut k: usize = 0;
        let mut hit = false;
        while k < nodes.len() && !hit
            invariant
                views_of(nodes@) == gnodes,
                0 <= k <= nodes@.len(),
                hit ==> self.spec_hit(*value),
                !hit ==> forall|j: int| 0 <= j < k ==> lower_of(#[trigger] gnodes[j])
                    != self.expected@,
            decreases nodes@.len() - k,
        {
            let low = lowercase(nodes[k].as_str());
            if str_eq(low.as_str(), self.expected.as_str()) {
                proof {
                    assert(lower_of(gnodes[k as int]) == self.expected@);
                    assert(self.spec_hit(*value)) by {
                        assert(0 <= k < string_nodes(*value, self.path@, 0).len() && lower_of(
                            string_nodes(*value, self.path@, 0)[k as int],
                        ) == self.expected@);
                    }
                }
                hit = true;
            }
            k += 1;
        }
        if !hit {
            proof {
                assert(!self.spec_hit(*value));
            }
            return Ok(None);
        }
        match extract_aturi(self.aturi_path.as_ref(), value) {
            Some(u) => Ok(Some(Match::upsert(u.as_str()))),
            None => Err(MatchError::new("matcher matched but could not create at-uri")),
        }
    }
}

impl PrefixMatcher {
    /// Build the matcher from its configured prefix and paths; fails exactly
    /// when a path does not parse.
    pub fn new(prefix: &str, path: &str, aturi: &Option<String>) -> (r: Result<
        PrefixMatcher,
        MatchError,
    >)
        ensures
            match r {
                Ok(m) => {
                    &&& Some(m.path@) == spec_parse_path(path@)
                    &&& m.prefix@ == lower_of(prefix@)
                    &&& opt_paths_match(m.aturi_path, *aturi)
                },
                Err(_) => spec_parse_path(path@) is None || !opt_path_ok(*aturi),
            },
    {
        match JsonPath::parse(path) {
            None => Err(MatchError::new("cannot parse path")),
            Some(p) => match parse_opt_path(aturi) {
                Err(e) => Err(e),
                Ok(ap) => Ok(
                    PrefixMatcher { prefix: lowercase(prefix), path: p, aturi_path: ap },
                ),
            },
        }
    }

    /// Whether the event matches: some selected string, lowered, starts with
    /// the prefix held here, which construction lowered.
    pub open spec fn spec_hit(self, v: JsonValue) -> bool {
        exists|k: int|
            0 <= k < string_nodes(v, self.path@, 0).len() && self.prefix@.is_prefix_of(
                lower_of(#[trigger] string_nodes(v, self.path@, 0)[k]),
            )
    }

    /// Decide the event; on a hit the result carries the derived AT-URI.
    #[verifier::loop_isolation(false)]
    pub fn matches(&self, value: &JsonValue) -> (r: Result<Option<Match>, MatchError>)
        ensures
            !self.spec_hit(*value) ==> r matches Ok(None),
            self.spec_hit(*value) ==> match spec_extract_aturi(
                opt_path_view(self.aturi_path),
                *value,
            ) {
                Some(u) => r matches Ok(Some(m)) && m.0 == MatchOperation::Upsert && m.1@ == u,
                None => r is Err,
            },
    {
        let nodes = self.path.query_strings(value);
        let ghost gnodes = string_nodes(*value, self.path@, 0);
        let mut k: usize = 0;
        let mut hit = false;
        while k < nodes.len() && !hit
            invariant
                views_of(nodes@) == gnodes,
                0 <= k <= nodes@.len(),
                hit ==> self.spec_hit(*value),
                !hit ==> forall|j: int|
                    0 <= j < k ==> !self.prefix@.is_prefix_of(lower_of(#[trigger] gnodes[j])),
            decreases nodes@.len() - k,
        {
            let low = lowercase(nodes[k].as_str());
            if str_starts_with(low.as_str(), self.prefix.as_str()) {
                proof {
                    assert(self.prefix@.is_prefix_of(lower_of(gnodes[k as int])));
                    assert(self.spec_hit(*value)) by {
                        assert(0 <= k < string_nodes(*value, self.path@, 0).len()
                            && self.prefix@.is_prefix_of(
                            lower_of(string_nodes(*value, self.path@, 0)[k as int]),
                        ));
                    }
                }
                hit = true;
            }
            k += 1;
        }
        if !hit {
            proof {
                assert(!self.spec_hit(*value));
            }
            return Ok(None);
        }
        match extract_aturi(self.aturi_path.as_ref(), value) {
            Some(u) => Ok(Some(Match::upsert(u.as_str()))),
            None => Err(MatchError::new("matcher matched but could not create at-uri")),
        }
    }
}

impl SequenceMatcher {
    /// Build the matcher from its configured words and paths; fails exactly
    /// when a path does not parse.
    pub fn new(expected: &[String], path: &str, aturi: &Option<String>) -> (r: Result<
        SequenceMatcher,
        MatchError,
    >)
        ensures
            match r {
                Ok(m) => {
                    &&& Some(m.path@) == spec_parse_path(path@)
                    &&& views_of(m.expected@) == lowered_views(expected@)
                    &&& opt_paths_match(m.aturi_path, *aturi)
                },
                Err(_) => spec_parse_path(path@) is None || !opt_path_ok(*aturi),
            },
    {
        match JsonPath::parse(path) {
            None => Err(MatchError::new("cannot parse path")),
            Some(p) => match parse_opt_path(aturi) {
                Err(e) => Err(e),
                Ok(ap) => {
                    let mut words: Vec<String> = Vec::new();
                    let mut i: usize = 0;
                    while i < expected.len()
                        invariant
                            0 <= i <= expected@.len(),
                            views_of(words@) == lowered_views(expected@.subrange(0, i as int)),
                        decreases expected@.len() - i,
                    {
                        let low = lowercase(expected[i].as_str());
                        let ghost lowv = low@;
                        let ghost pre = words@;
                        proof {
                            assert(lowv == lower_of(expected@[i as int]@));
                        }
                        words.push(low);
                        proof {
                            assert(views_of(pre).len() == pre.len());
                            assert(pre.len() == i);
                            assert(words@ == pre.push(words@[i as int]));
                            assert(words@[i as int]@ == lowv);
                            assert forall|k: int|
                                0 <= k < i + 1 implies #[trigger] views_of(words@)[k]
                                == lowered_views(expected@.subrange(0, i + 1))[k] by {
                                assert(lowered_views(expected@.subrange(0, i + 1))[k] == lower_of(
                                    expected@.subrange(0, i + 1)[k]@,
                                ));
                                assert(expected@.subrange(0, i + 1)[k] == expected@[k]);
                                if k < i {
                                    assert(words@[k] == pre[k]);
                                    assert(views_of(pre)[k] == pre[k]@);
                                    assert(views_of(pre)[k] == lowered_views(
                                        expected@.subrange(0, i as int),
                                    )[k]);
                                    assert(lowered_views(expected@.subrange(0, i as int))[k]
                                        == lower_of(expected@.subrange(0, i as int)[k]@));
                                    assert(expected@.subrange(0, i as int)[k] == expected@[k]);
                                } else {
                                    assert(words@[k]@ == lowv);
                                }
                            }
                            assert(views_of(words@) =~= lowered_views(
                                expected@.subrange(0, i + 1),
                            ));
                        }
                        i += 1;
                    }
                    proof {
                        assert(expected@.subrange(0, expected@.len() as int) =~= expected@);
                    }
                    Ok(SequenceMatcher { expected: words, path: p, aturi_path: ap })
                },
            },
        }
    }

    /// Whether the event matches: some selected string, lowered, contains
    /// every word held here (which construction lowered) at strictly
    /// increasing positions, each found just past the previous match.
    pub open spec fn spec_hit(self, v: JsonValue) -> bool {
        exists|k: int|
            0 <= k < string_nodes(v, self.path@, 0).len() && sequence_found(
                views_of(self.expected@),
                lower_of(#[trigger] string_nodes(v, self.path@, 0)[k]),
            )
    }

    /// Decide the event; on a hit the result carries the derived AT-URI.
    #[verifier::loop_isolation(false)]
    pub fn matches(&self, value: &JsonValue) -> (r: Result<Option<Match>, MatchError>)
        ensures
            !self.spec_hit(*value) ==> r matches Ok(None),
            self.spec_hit(*value) ==> match spec_extract_aturi(
                opt_path_view(self.aturi_path),
                *value,
            ) {
                Some(u) => r matches Ok(Some(m)) && m.0 == MatchOperation::Upsert && m.1@ == u,
                None => r is Err,
            },
    {
        let nodes = self.path.query_strings(value);
        let ghost gnodes = string_nodes(*value, self.path@, 0);
        let mut k: usize = 0;
        let mut hit = false;
        while k < nodes.len() && !hit
            invariant
                views_of(nodes@) == gnodes,
                0 <= k <= nodes@.len(),
                hit ==> self.spec_hit(*value),
                !hit ==> forall|j: int|
                    0 <= j < k ==> !sequence_found(
                        views_of(self.expected@),
                        lower_of(#[trigger] gnodes[j]),
                    ),
            decreases nodes@.len() - k,
        {
            let low = lowercase(nodes[k].as_str());
            if sequence_matches(self.expected.as_slice(), low.as_str()) {
                proof {
                    assert(sequence_found(views_of(self.expected@), lower_of(gnodes[k as int])));
                    assert(self.spec_hit(*value)) by {
                        assert(0 <= k < string_nodes(*value, self.path@, 0).len()
                            && sequence_found(
                            views_of(self.expected@),
                            lower_of(string_nodes(*value, self.path@, 0)[k as int]),
                        ));
                    }
                }
                hit = true;
            }
            k += 1;
        }
        if !hit {
            proof {
                assert(!self.spec_hit(*value));
            }
            return Ok(None);
        }
        match extract_aturi(self.aturi_path.as_ref(), value) {
            Some(u) => Ok(Some(Match::upsert(u.as_str()))),
            None => Err(MatchError::new("matcher matched but could not create at-uri")),
        }
    }
}

/// One matcher of a feed.
#[derive(Debug)]
pub enum MatcherKind {
    Equal(EqualsMatcher),
    Prefix(PrefixMatcher),
    Sequence(SequenceMatcher),
}

/// Whether a matcher hits the event.
pub open spec fn spec_matcher_hit(m: MatcherKind, v: JsonValue) -> bool {
    match m {
        MatcherKind::Equal(em) => em.spec_hit(v),
        MatcherKind::Prefix(pm) => pm.spec_hit(v),
        MatcherKind::Sequence(sm) => sm.spec_hit(v),
    }
}

pub open spec fn spec_matcher_aturi_path(m: MatcherKind) -> Option<JsonPath> {
    match m {
        MatcherKind::Equal(em) => em.aturi_path,
        MatcherKind::Prefix(pm) => pm.aturi_path,
        MatcherKind::Sequence(sm) => sm.aturi_path,
    }
}

/// What a matcher decides for an event: `Some(Some(u))` a match storing `u`,
/// `Some(None)` no match, `None` a failed match (hit without an AT-URI).
pub open spec fn spec_matcher_outcome(m: MatcherKind, v: JsonValue) -> Option<Option<Seq<char>>> {
    if !spec_matcher_hit(m, v) {
        Some(None)
    } else {
        match spec_extract_aturi(opt_path_view(spec_matcher_aturi_path(m)), v) {
            Some(u) => Some(Some(u)),
            None => None,
        }
    }
}

impl MatcherKind {
    /// Decide the event with whichever matcher this is.
    pub fn matches(&self, value: &JsonValue) -> (r: Result<Option<Match>, MatchError>)
        ensures
            match spec_matcher_outcome(*self, *value) {
                Some(Some(u)) => r matches Ok(Some(m)) && m.0 == MatchOperation::Upsert && m.1@
                    == u,
                Some(None) => r matches Ok(None),
                None => r is Err,
            },
    {
        match self {
            MatcherKind::Equal(em) => em.matches(value),
            MatcherKind::Prefix(pm) => pm.matches(value),
            MatcherKind::Sequence(sm) => sm.matches(value),
        }
    }
}

/// The matchers of one feed, tried in order.
#[derive(Debug)]
pub struct FeedMatcher {
    pub feed: String,
    pub matchers: Vec<MatcherKind>,
}

/// The URI of the first match among the matchers from `i` on; a matcher that
/// fails or does not match is passed over.
pub open spec fn spec_feed_first(ms: Seq<MatcherKind>, v: JsonValue, i: int) -> Option<Seq<char>>
    decreases ms.len() - i,
    when 0 <= i <= ms.len()
{
    if i == ms.len() {
        None
    } else {
        match spec_matcher_outcome(ms[i], v) {
            Some(Some(u)) => Some(u),
            _ => spec_feed_first(ms, v, i + 1),
        }
    }
}

impl FeedMatcher {
    /// The first match any of this feed's matchers produces; an erroring
    /// matcher is skipped.
    #[verifier::loop_isolation(false)]
    pub fn matches(&self, value: &JsonValue) -> (r: Option<Match>)
        ensures
            match spec_feed_first(self.matchers@, *value, 0) {
                Some(u) => r matches Some(m) && m.0 == MatchOperation::Upsert && m.1@ == u,
                None => r is None,
            },
    {
        let mut i: usize = 0;
        while i < self.matchers.len()
            invariant
                0 <= i <= self.matchers@.len(),
                spec_feed_first(self.matchers@, *value, 0) == spec_feed_first(
                    self.matchers@,
                    *value,
                    i as int,
                ),
            decreases self.matchers@.len() - i,
        {
            match self.matchers[i].matches(value) {
                Ok(Some(m)) => {
                    return Some(m);
                },
                _ => {},
            }
            i += 1;
        }
        None
    }
}

/// The feed matchers built from configuration.
pub struct FeedMatchers(pub Vec<FeedMatcher>);

/// A configured matcher can be built: its paths parse and it does not ask for
/// the script engine, which is not embedded here.
pub open spec fn spec_matcher_config_ok(mc: crate::feedcfg::MatcherConfig) -> bool {
    match mc {
        crate::feedcfg::MatcherConfig::Equal { path, value, aturi } => spec_parse_path(path@)
            is Some && opt_path_ok(aturi),
        crate::feedcfg::MatcherConfig::Prefix { path, value, aturi } => spec_parse_path(path@)
            is Some && opt_path_ok(aturi),
        crate::feedcfg::MatcherConfig::Sequence { path, values, aturi } => spec_parse_path(path@)
            is Some && opt_path_ok(aturi),
        crate::feedcfg::MatcherConfig::Script { path } => false,
    }
}

/// A built matcher corresponds to its configuration.
pub open spec fn matcher_matches_config(m: MatcherKind, mc: crate::feedcfg::MatcherConfig) -> bool {
    match (m, mc) {
        (
            MatcherKind::Equal(em),
            crate::feedcfg::MatcherConfig::Equal { path, value, aturi },
        ) => em.expected@ == lower_of(value@) && Some(em.path@) == spec_parse_path(path@)
            && opt_paths_match(em.aturi_path, aturi),
        (
            MatcherKind::Prefix(pm),
            crate::feedcfg::MatcherConfig::Prefix { path, value, aturi },
        ) => pm.prefix@ == lower_of(value@) && Some(pm.path@) == spec_parse_path(path@)
            && opt_paths_match(pm.aturi_path, aturi),
        (
            MatcherKind::Sequence(sm),
            crate::feedcfg::MatcherConfig::Sequence { path, values, aturi },
        ) => views_of(sm.expected@) == lowered_views(values@) && Some(sm.path@)
            == spec_parse_path(path@) && opt_paths_match(sm.aturi_path, aturi),
        _ => false,
    }
}

impl FeedMatchers {
    /// Build every feed's matchers from configuration. Fails exactly when
    /// some matcher has an unparsable path or asks for the script engine.
    #[verifier::loop_isolation(false)]
    pub fn from_config(config_feeds: &crate::feedcfg::Feeds) -> (r: Result<
        FeedMatchers,
        MatchError,
    >)
        ensures
            (r is Ok) == (forall|k: int, j: int|
                0 <= k < config_feeds.feeds@.len() && 0 <= j
                    < (#[trigger] config_feeds.feeds@[k]).matchers@.len()
                    ==> spec_matcher_config_ok(#[trigger] config_feeds.feeds@[k].matchers@[j])),
            r matches Ok(fm) ==> {
                &&& fm.0@.len() == config_feeds.feeds@.len()
                &&& forall|k: int|
                    0 <= k < config_feeds.feeds@.len() ==> {
                        &&& (#[trigger] fm.0@[k]).feed@ == config_feeds.feeds@[k].uri@
                        &&& fm.0@[k].matchers@.len() == config_feeds.feeds@[k].matchers@.len()
                        &&& forall|j: int|
                            0 <= j < fm.0@[k].matchers@.len() ==> matcher_matches_config(
                                #[trigger] fm.0@[k].matchers@[j],
                                config_feeds.feeds@[k].matchers@[j],
                            )
                    }
            },
    {
        let mut out: Vec<FeedMatcher> = Vec::new();
        let mut k: usize = 0;
        while k < config_feeds.feeds.len()
            invariant
                0 <= k <= config_feeds.feeds@.len(),
                out@.len() == k,
                forall|k2: int, j: int|
                    0 <= k2 < k && 0 <= j < (#[trigger] config_feeds.feeds@[k2]).matchers@.len()
                        ==> spec_matcher_config_ok(
                        #[trigger] config_feeds.feeds@[k2].matchers@[j],
                    ),
                forall|k2: int|
                    0 <= k2 < k ==> {
                        &&& (#[trigger] out@[k2]).feed@ == config_feeds.feeds@[k2].uri@
                        &&& out@[k2].matchers@.len() == config_feeds.feeds@[k2].matchers@.len()
                        &&& forall|j: int|
                            0 <= j < out@[k2].matchers@.len() ==> matcher_matches_config(
                                #[trigger] out@[k2].matchers@[j],
                                config_feeds.feeds@[k2].matchers@[j],
                            )
                    },
            decreases config_feeds.feeds@.len() - k,
        {
            let feed = &config_feeds.feeds[k];
            let mut matchers: Vec<MatcherKind> = Vec::new();
            let mut j: usize = 0;
            while j < feed.matchers.len()
                invariant
                    0 <= j <= feed.matchers@.len(),
                    matchers@.len() == j,
                    forall|j2: int|
                        0 <= j2 < j ==> spec_matcher_config_ok(#[trigger] feed.matchers@[j2]),
                    forall|j2: int|
                        0 <= j2 < j ==> matcher_matches_config(
                            #[trigger] matchers@[j2],
                            feed.matchers@[j2],
                        ),
                decreases feed.matchers@.len() - j,
            {
                let built: Result<MatcherKind, MatchError> = match &feed.matchers[j] {
                    crate::feedcfg::MatcherConfig::Equal { path, value, aturi } => {
                        match EqualsMatcher::new(value.as_str(), path.as_str(), aturi) {
                            Ok(m) => Ok(MatcherKind::Equal(m)),
                            Err(e) => Err(e),
                        }
                    },
                    crate::feedcfg::MatcherConfig::Prefix { path, value, aturi } => {
                        match PrefixMatcher::new(value.as_str(), path.as_str(), aturi) {
                            Ok(m) => Ok(MatcherKind::Prefix(m)),
                            Err(e) => Err(e),
                        }
                    },
                    crate::feedcfg::MatcherConfig::Sequence { path, values, aturi } => {
                        match SequenceMatcher::new(values.as_slice(), path.as_str(), aturi) {
                            Ok(m) => Ok(MatcherKind::Sequence(m)),
                            Err(e) => Err(e),
                        }
                    },
                    crate::feedcfg::MatcherConfig::Script { path } => {
                        Err(MatchError::new("script matchers are not supported"))
                    },
                };
                match built {
                    Ok(m) => {
                        matchers.push(m);
                    },
                    Err(e) => {
                        proof {
                            assert(!spec_matcher_config_ok(feed.matchers@[j as int]));
                        }
                        return Err(e);
                    },
                }
                j += 1;
            }
            out.push(FeedMatcher { feed: feed.uri.clone(), matchers });
            k += 1;
        }
        Ok(FeedMatchers(out))
    }
}

} // verus!
