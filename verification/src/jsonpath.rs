use vstd::prelude::*;
use crate::json::{spec_as_str, spec_get, JsonValue};
use crate::strutil::str_eq;

verus! {

/// One step of a path: a named child, every child, or the elements of an
/// array whose field `key` equals a string literal.
#[derive(Debug)]
pub enum PathSeg {
    Child(String),
    Wildcard,
    Filter(String, String),
}

/// The mathematical shape of a path step.
pub enum SpecSeg {
    Child(Seq<char>),
    Wildcard,
    Filter(Seq<char>, Seq<char>),
}

impl View for PathSeg {
    type V = SpecSeg;

    open spec fn view(&self) -> SpecSeg {
        match self {
            PathSeg::Child(s) => SpecSeg::Child(s@),
            PathSeg::Wildcard => SpecSeg::Wildcard,
            PathSeg::Filter(k, v) => SpecSeg::Filter(k@, v@),
        }
    }
}

pub open spec fn segs_view(v: Seq<PathSeg>) -> Seq<SpecSeg> {
    v.map_values(|p: PathSeg| p@)
}

/// A parsed query path over JSON values.
#[derive(Debug)]
pub struct JsonPath {
    pub segs: Vec<PathSeg>,
}

impl View for JsonPath {
    type V = Seq<SpecSeg>;

    open spec fn view(&self) -> Seq<SpecSeg> {
        segs_view(self.segs@)
    }
}

/// The views of a sequence of strings.
pub open spec fn views_of(ss: Seq<String>) -> Seq<Seq<char>> {
    ss.map_values(|t: String| t@)
}

pub open spec fn is_ident_char(c: char) -> bool {
    ||| ('a' as int) <= c as int <= ('z' as int)
    ||| ('A' as int) <= c as int <= ('Z' as int)
    ||| ('0' as int) <= c as int <= ('9' as int)
    ||| c == '_'
}

/// The end of the run of identifier characters beginning at `k`.
pub open spec fn spec_ident_end(s: Seq<char>, k: int) -> int
    decreases s.len() - k,
    when 0 <= k <= s.len()
{
    if k == s.len() {
        k
    } else if is_ident_char(s[k]) {
        spec_ident_end(s, k + 1)
    } else {
        k
    }
}

/// The position of the next single quote at or after `k`.
pub open spec fn spec_quote_end(s: Seq<char>, k: int) -> Option<int>
    decreases s.len() - k,
    when 0 <= k <= s.len()
{
    if k == s.len() {
        None
    } else if s[k] == '\'' {
        Some(k)
    } else {
        spec_quote_end(s, k + 1)
    }
}

/// The segments a path string denotes from position `i` on, or nothing when
/// the text is not a path. Accepted steps: `.name`, `['name']`, `.*`, `[*]`,
/// and `[?(@['key'] == 'value')]`.
pub open spec fn spec_parse_segs(s: Seq<char>, i: int) -> Option<Seq<SpecSeg>>
    decreases s.len() - i,
    when 0 <= i <= s.len()
{
    if i == s.len() {
        Some(Seq::empty())
    } else if s[i] == '.' {
        if i + 1 < s.len() && s[i + 1] == '*' {
            match spec_parse_segs(s, i + 2) {
                None => None,
                Some(rest) => Some(seq![SpecSeg::Wildcard] + rest),
            }
        } else {
            let j = spec_ident_end(s, i + 1);
            if j == i + 1 || j > s.len() || j <= i {
                None
            } else {
                match spec_parse_segs(s, j) {
                    None => None,
                    Some(rest) => Some(seq![SpecSeg::Child(s.subrange(i + 1, j))] + rest),
                }
            }
        }
    } else if s[i] == '[' {
        if i + 1 < s.len() && s[i + 1] == '*' {
            if i + 2 < s.len() && s[i + 2] == ']' {
                match spec_parse_segs(s, i + 3) {
                    None => None,
                    Some(rest) => Some(seq![SpecSeg::Wildcard] + rest),
                }
            } else {
                None
            }
        } else if i + 1 < s.len() && s[i + 1] == '\'' {
            match spec_quote_end(s, i + 2) {
                None => None,
                Some(q) => if i + 2 <= q && q + 1 < s.len() && s[q + 1] == ']' {
                    match spec_parse_segs(s, q + 2) {
                        None => None,
                        Some(rest) => Some(seq![SpecSeg::Child(s.subrange(i + 2, q))] + rest),
                    }
                } else {
                    None
                },
            }
        } else if i + 5 < s.len() && s[i + 1] == '?' && s[i + 2] == '(' && s[i + 3] == '@' && s[i
            + 4] == '[' && s[i + 5] == '\'' {
            match spec_quote_end(s, i + 6) {
                None => None,
                Some(q) => if i + 6 <= q && q + 6 < s.len() && s[q + 1] == ']' && s[q + 2] == ' '
                    && s[q + 3] == '=' && s[q + 4] == '=' && s[q + 5] == ' ' && s[q + 6] == '\'' {
                    match spec_quote_end(s, q + 7) {
                        None => None,
                        Some(q2) => if q + 7 <= q2 && q2 + 2 < s.len() && s[q2 + 1] == ')' && s[q2
                            + 2] == ']' {
                            match spec_parse_segs(s, q2 + 3) {
                                None => None,
                                Some(rest) => Some(
                                    seq![
                                        SpecSeg::Filter(
                                            s.subrange(i + 6, q),
                                            s.subrange(q + 7, q2),
                                        ),
                                    ] + rest,
                                ),
                            }
                        } else {
                            None
                        },
                    }
                } else {
                    None
                },
            }
        } else {
            None
        }
    } else {
        None
    }
}

/// What a whole path string denotes: a `$` followed by steps.
pub open spec fn spec_parse_path(s: Seq<char>) -> Option<Seq<SpecSeg>> {
    if s.len() >= 1 && s[0] == '$' {
        spec_parse_segs(s, 1)
    } else {
        None
    }
}

/// An array element passes a filter when its field `key` is the string `val`.
pub open spec fn filter_hit(elem: JsonValue, key: Seq<char>, val: Seq<char>) -> bool {
    spec_as_str(spec_get(elem, key)) == Some(val)
}

/// The string values a path selects in `v`, from step `i` on, in document
/// order. A value at the end of the path counts only if it is a string.
pub open spec fn string_nodes(v: JsonValue, segs: Seq<SpecSeg>, i: int) -> Seq<Seq<char>>
    decreases segs.len() - i, 0nat,
    when 0 <= i <= segs.len()
{
    if i == segs.len() {
        match v {
            JsonValue::Str(s) => seq![s@],
            _ => Seq::empty(),
        }
    } else {
        match segs[i] {
            SpecSeg::Child(name) => match spec_get(v, name) {
                Some(child) => string_nodes(child, segs, i + 1),
                None => Seq::empty(),
            },
            SpecSeg::Wildcard => match v {
                JsonValue::Arr(elems) => nodes_list(elems@, segs, i + 1),
                JsonValue::Obj(fields) => nodes_fields(fields@, segs, i + 1),
                _ => Seq::empty(),
            },
            SpecSeg::Filter(key, val) => match v {
                JsonValue::Arr(elems) => nodes_filtered(elems@, key, val, segs, i + 1),
                _ => Seq::empty(),
            },
        }
    }
}

pub open spec fn nodes_list(vs: Seq<JsonValue>, segs: Seq<SpecSeg>, i: int) -> Seq<Seq<char>>
    decreases segs.len() - i, vs.len() + 1,
    when 0 <= i <= segs.len()
{
    if vs.len() == 0 {
        Seq::empty()
    } else {
        string_nodes(vs[0], segs, i) + nodes_list(vs.drop_first(), segs, i)
    }
}

pub open spec fn nodes_fields(
    fs: Seq<(String, JsonValue)>,
    segs: Seq<SpecSeg>,
    i: int,
) -> Seq<Seq<char>>
    decreases segs.len() - i, fs.len() + 1,
    when 0 <= i <= segs.len()
{
    if fs.len() == 0 {
        Seq::empty()
    } else {
        string_nodes(fs[0].1, segs, i) + nodes_fields(fs.drop_first(), segs, i)
    }
}

pub open spec fn nodes_filtered(
    vs: Seq<JsonValue>,
    key: Seq<char>,
    val: Seq<char>,
    segs: Seq<SpecSeg>,
    i: int,
) -> Seq<Seq<char>>
    decreases segs.len() - i, vs.len() + 1,
    when 0 <= i <= segs.len()
{
    if vs.len() == 0 {
        Seq::empty()
    } else {
        (if filter_hit(vs[0], key, val) {
            string_nodes(vs[0], segs, i)
        } else {
            Seq::empty()
        }) + nodes_filtered(vs.drop_first(), key, val, segs, i)
    }
}

/// Appending one value to a list appends its nodes.
proof fn lemma_nodes_list_push(vs: Seq<JsonValue>, x: JsonValue, segs: Seq<SpecSeg>, i: int)
    requires
        0 <= i <= segs.len(),
    ensures
        nodes_list(vs.push(x), segs, i) == nodes_list(vs, segs, i) + string_nodes(x, segs, i),
    decreases vs.len(),
{
    let p = vs.push(x);
    if vs.len() == 0 {
        assert(p[0] == x);
        assert(p.drop_first() =~= vs);
        assert(nodes_list(p, segs, i) == string_nodes(x, segs, i) + nodes_list(vs, segs, i));
        assert(nodes_list(vs, segs, i) == Seq::<Seq<char>>::empty());
        assert(string_nodes(x, segs, i) + Seq::<Seq<char>>::empty() =~= Seq::<
            Seq<char>,
        >::empty() + string_nodes(x, segs, i));
    } else {
        assert(p.drop_first() =~= vs.drop_first().push(x));
        lemma_nodes_list_push(vs.drop_first(), x, segs, i);
        assert(p[0] == vs[0]);
        assert(nodes_list(p, segs, i) == string_nodes(vs[0], segs, i) + (nodes_list(
            vs.drop_first(),
            segs,
            i,
        ) + string_nodes(x, segs, i)));
        assert(nodes_list(vs, segs, i) == string_nodes(vs[0], segs, i) + nodes_list(
            vs.drop_first(),
            segs,
            i,
        ));
        assert(string_nodes(vs[0], segs, i) + (nodes_list(vs.drop_first(), segs, i)
            + string_nodes(x, segs, i)) =~= (string_nodes(vs[0], segs, i) + nodes_list(
            vs.drop_first(),
            segs,
            i,
        )) + string_nodes(x, segs, i));
    }
}

proof fn lemma_nodes_fields_push(
    fs: Seq<(String, JsonValue)>,
    x: (String, JsonValue),
    segs: Seq<SpecSeg>,
    i: int,
)
    requires
        0 <= i <= segs.len(),
    ensures
        nodes_fields(fs.push(x), segs, i) == nodes_fields(fs, segs, i) + string_nodes(
            x.1,
            segs,
            i,
        ),
    decreases fs.len(),
{
    let p = fs.push(x);
    if fs.len() == 0 {
        assert(p[0] == x);
        assert(p.drop_first() =~= fs);
        assert(nodes_fields(p, segs, i) == string_nodes(x.1, segs, i) + nodes_fields(fs, segs, i));
        assert(nodes_fields(fs, segs, i) == Seq::<Seq<char>>::empty());
        assert(string_nodes(x.1, segs, i) + Seq::<Seq<char>>::empty() =~= Seq::<
            Seq<char>,
        >::empty() + string_nodes(x.1, segs, i));
    } else {
        assert(p.drop_first() =~= fs.drop_first().push(x));
        lemma_nodes_fields_push(fs.drop_first(), x, segs, i);
        assert(p[0] == fs[0]);
        assert(nodes_fields(p, segs, i) == string_nodes(fs[0].1, segs, i) + (nodes_fields(
            fs.drop_first(),
            segs,
            i,
        ) + string_nodes(x.1, segs, i)));
        assert(nodes_fields(fs, segs, i) == string_nodes(fs[0].1, segs, i) + nodes_fields(
            fs.drop_first(),
            segs,
            i,
        ));
        assert(string_nodes(fs[0].1, segs, i) + (nodes_fields(fs.drop_first(), segs, i)
            + string_nodes(x.1, segs, i)) =~= (string_nodes(fs[0].1, segs, i) + nodes_fields(
            fs.drop_first(),
            segs,
            i,
        )) + string_nodes(x.1, segs, i));
    }
}

proof fn lemma_nodes_filtered_push(
    vs: Seq<JsonValue>,
    x: JsonValue,
    key: Seq<char>,
    val: Seq<char>,
    segs: Seq<SpecSeg>,
    i: int,
)
    requires
        0 <= i <= segs.len(),
    ensures
        nodes_filtered(vs.push(x), key, val, segs, i) == nodes_filtered(vs, key, val, segs, i) + (
        if filter_hit(x, key, val) {
            string_nodes(x, segs, i)
        } else {
            Seq::empty()
        }),
    decreases vs.len(),
{
    let p = vs.push(x);
    let tail = (if filter_hit(x, key, val) {
        string_nodes(x, segs, i)
    } else {
        Seq::<Seq<char>>::empty()
    });
    let head = (if filter_hit(vs[0], key, val) {
        string_nodes(vs[0], segs, i)
    } else {
        Seq::<Seq<char>>::empty()
    });
    if vs.len() == 0 {
        assert(p[0] == x);
        assert(p.drop_first() =~= vs);
        assert(nodes_filtered(p, key, val, segs, i) == tail + nodes_filtered(
            vs,
            key,
            val,
            segs,
            i,
        ));
        assert(nodes_filtered(vs, key, val, segs, i) == Seq::<Seq<char>>::empty());
        assert(tail + Seq::<Seq<char>>::empty() =~= Seq::<Seq<char>>::empty() + tail);
    } else {
        assert(p.drop_first() =~= vs.drop_first().push(x));
        lemma_nodes_filtered_push(vs.drop_first(), x, key, val, segs, i);
        assert(p[0] == vs[0]);
        assert(nodes_filtered(p, key, val, segs, i) == head + (nodes_filtered(
            vs.drop_first(),
            key,
            val,
            segs,
            i,
        ) + tail));
        assert(nodes_filtered(vs, key, val, segs, i) == head + nodes_filtered(
            vs.drop_first(),
            key,
            val,
            segs,
            i,
        ));
        assert(head + (nodes_filtered(vs.drop_first(), key, val, segs, i) + tail) =~= (head
            + nodes_filtered(vs.drop_first(), key, val, segs, i)) + tail);
    }
}

/// End of the identifier run starting at `k`.
fn ident_end(s: &str, k: usize, len: usize) -> (r: usize)
    requires
        len == s@.len(),
        k <= len,
    ensures
        r == spec_ident_end(s@, k as int),
        k <= r <= len,
{
    let mut cur = k;
    while cur < len
        invariant
            len == s@.len(),
            k <= cur <= len,
            spec_ident_end(s@, k as int) == spec_ident_end(s@, cur as int),
        decreases len - cur,
    {
        let c = s.get_char(cur);
        let u = c as u32;
        let hit = (u >= 'a' as u32 && u <= 'z' as u32) || (u >= 'A' as u32 && u <= 'Z' as u32) || (
        u >= '0' as u32 && u <= '9' as u32) || c == '_';
        proof {
            assert(hit == is_ident_char(s@[cur as int]));
        }
        if !hit {
            return cur;
        }
        cur += 1;
    }
    cur
}

/// Position of the next single quote at or after `k`.
fn quote_end(s: &str, k: usize, len: usize) -> (r: Option<usize>)
    requires
        len == s@.len(),
        k <= len,
    ensures
        match r {
            Some(q) => Some(q as int) == spec_quote_end(s@, k as int) && k <= q < len,
            None => spec_quote_end(s@, k as int) is None,
        },
{
    let mut cur = k;
    while cur < len
        invariant
            len == s@.len(),
            k <= cur <= len,
            spec_quote_end(s@, k as int) == spec_quote_end(s@, cur as int),
        decreases len - cur,
    {
        if s.get_char(cur) == '\'' {
            return Some(cur);
        }
        cur += 1;
    }
    None
}

/// Parse the steps of a path from position `i` on.
fn parse_segs(s: &str, i: usize, len: usize) -> (r: Option<Vec<PathSeg>>)
    requires
        len == s@.len(),
        i <= len,
    ensures
        match r {
            Some(v) => spec_parse_segs(s@, i as int) == Some(segs_view(v@)),
            None => spec_parse_segs(s@, i as int) is None,
        },
    decreases len - i,
{
    if i == len {
        let out: Vec<PathSeg> = Vec::new();
        proof {
            assert(segs_view(out@) =~= Seq::<SpecSeg>::empty());
        }
        return Some(out);
    }
    let c = s.get_char(i);
    if c == '.' {
        if i + 1 < len && s.get_char(i + 1) == '*' {
            match parse_segs(s, i + 2, len) {
                None => None,
                Some(mut rest) => {
                    rest.insert(0, PathSeg::Wildcard);
                    proof {
                        assert(segs_view(rest@) =~= seq![SpecSeg::Wildcard] + segs_view(
                            rest@.drop_first(),
                        ));
                    }
                    Some(rest)
                },
            }
        } else {
            let j = ident_end(s, i + 1, len);
            if j == i + 1 {
                None
            } else {
                match parse_segs(s, j, len) {
                    None => None,
                    Some(mut rest) => {
                        let name = s.substring_char(i + 1, j).to_owned();
                        rest.insert(0, PathSeg::Child(name));
                        proof {
                            assert(segs_view(rest@) =~= seq![
                                SpecSeg::Child(s@.subrange(i + 1, j as int)),
                            ] + segs_view(rest@.drop_first()));
                        }
                        Some(rest)
                    },
                }
            }
        }
    } else if c == '[' {
        if i + 1 < len && s.get_char(i + 1) == '*' {
            if i + 2 < len && s.get_char(i + 2) == ']' {
                match parse_segs(s, i + 3, len) {
                    None => None,
                    Some(mut rest) => {
                        rest.insert(0, PathSeg::Wildcard);
                        proof {
                            assert(segs_view(rest@) =~= seq![SpecSeg::Wildcard] + segs_view(
                                rest@.drop_first(),
                            ));
                        }
                        Some(rest)
                    },
                }
            } else {
                None
            }
        } else if i + 1 < len && s.get_char(i + 1) == '\'' {
            match quote_end(s, i + 2, len) {
                None => None,
                Some(q) => {
                    if q + 1 < len && s.get_char(q + 1) == ']' {
                        match parse_segs(s, q + 2, len) {
                            None => None,
                            Some(mut rest) => {
                                let name = s.substring_char(i + 2, q).to_owned();
                                rest.insert(0, PathSeg::Child(name));
                                proof {
                                    assert(segs_view(rest@) =~= seq![
                                        SpecSeg::Child(s@.subrange(i + 2, q as int)),
                                    ] + segs_view(rest@.drop_first()));
                                }
                                Some(rest)
                            },
                        }
                    } else {
                        None
                    }
                },
            }
        } else if len - i > 5 && s.get_char(i + 1) == '?' && s.get_char(i + 2) == '(' && s.get_char(
            i + 3,
        ) == '@' && s.get_char(i + 4) == '[' && s.get_char(i + 5) == '\'' {
            match quote_end(s, i + 6, len) {
                None => None,
                Some(q) => {
                    if len - q > 6 && s.get_char(q + 1) == ']' && s.get_char(q + 2) == ' '
                        && s.get_char(q + 3) == '=' && s.get_char(q + 4) == '=' && s.get_char(q + 5)
                        == ' ' && s.get_char(q + 6) == '\'' {
                        match quote_end(s, q + 7, len) {
                            None => None,
                            Some(q2) => {
                                if len - q2 > 2 && s.get_char(q2 + 1) == ')' && s.get_char(q2 + 2)
                                    == ']' {
                                    match parse_segs(s, q2 + 3, len) {
                                        None => None,
                                        Some(mut rest) => {
                                            let key = s.substring_char(i + 6, q).to_owned();
                                            let val = s.substring_char(q + 7, q2).to_owned();
                                            rest.insert(0, PathSeg::Filter(key, val));
                                            proof {
                                                assert(segs_view(rest@) =~= seq![
                                                    SpecSeg::Filter(
                                                        s@.subrange(i + 6, q as int),
                                                        s@.subrange(q + 7, q2 as int),
                                                    ),
                                                ] + segs_view(rest@.drop_first()));
                                            }
                                            Some(rest)
                                        },
                                    }
                                } else {
                                    None
                                }
                            },
                        }
                    } else {
                        None
                    }
                },
            }
        } else {
            None
        }
    } else {
        None
    }
}

impl JsonPath {
    /// Parse a path string: a `$` followed by steps.
    pub fn parse(s: &str) -> (r: Option<JsonPath>)
        ensures
            match r {
                Some(p) => spec_parse_path(s@) == Some(p@),
                None => spec_parse_path(s@) is None,
            },
    {
        let len = s.unicode_len();
        if len == 0 || s.get_char(0) != '$' {
            return None;
        }
        match parse_segs(s, 1, len) {
            None => None,
            Some(segs) => Some(JsonPath { segs }),
        }
    }

    /// The string values this path selects in `v`, in document order.
    pub fn query_strings(&self, v: &JsonValue) -> (r: Vec<String>)
        ensures
            views_of(r@) == string_nodes(*v, self@, 0),
    {
        let mut out: Vec<String> = Vec::new();
        collect_nodes(v, &self.segs, 0, &mut out);
        proof {
            assert(views_of(Seq::<String>::empty()) =~= Seq::<Seq<char>>::empty());
            assert(views_of(out@) =~= string_nodes(*v, self@, 0));
        }
        out
    }
}

/// Append to `out` the string values selected from `v` by the steps from `i` on.
#[verifier::loop_isolation(false)]
fn collect_nodes(v: &JsonValue, segs: &Vec<PathSeg>, i: usize, out: &mut Vec<String>)
    requires
        i <= segs@.len(),
    ensures
        views_of(final(out)@) == views_of(old(out)@) + string_nodes(
            *v,
            segs_view(segs@),
            i as int,
        ),
    decreases segs@.len() - i,
{
    let ghost gsegs = segs_view(segs@);
    if i == segs.len() {
        match v {
            JsonValue::Str(s) => {
                out.push(s.clone());
                proof {
                    assert(views_of(out@) =~= views_of(old(out)@) + string_nodes(
                        *v,
                        gsegs,
                        i as int,
                    ));
                }
            },
            _ => {
                proof {
                    assert(views_of(out@) =~= views_of(old(out)@) + string_nodes(
                        *v,
                        gsegs,
                        i as int,
                    ));
                }
            },
        }
        return ;
    }
    proof {
        assert(gsegs[i as int] == segs@[i as int]@);
    }
    match &segs[i] {
        PathSeg::Child(name) => {
            match v.get(name.as_str()) {
                Some(child) => {
                    collect_nodes(child, segs, i + 1, out);
                },
                None => {
                    proof {
                        assert(views_of(out@) =~= views_of(old(out)@) + string_nodes(
                            *v,
                            gsegs,
                            i as int,
                        ));
                    }
                },
            }
        },
        PathSeg::Wildcard => {
            match v {
                JsonValue::Arr(elems) => {
                    let ghost start = views_of(out@);
                    let mut j: usize = 0;
                    while j < elems.len()
                        invariant
                            0 <= j <= elems@.len(),
                            views_of(out@) == start + nodes_list(
                                elems@.subrange(0, j as int),
                                gsegs,
                                i + 1,
                            ),
                        decreases elems@.len() - j,
                    {
                        proof {
                            assert(elems@.subrange(0, j + 1) =~= elems@.subrange(
                                0,
                                j as int,
                            ).push(elems@[j as int]));
                            lemma_nodes_list_push(
                                elems@.subrange(0, j as int),
                                elems@[j as int],
                                gsegs,
                                i + 1,
                            );
                        }
                        collect_nodes(&elems[j], segs, i + 1, out);
                        j += 1;
                    }
                    proof {
                        assert(elems@.subrange(0, elems@.len() as int) =~= elems@);
                    }
                },
                JsonValue::Obj(fields) => {
                    let ghost start = views_of(out@);
                    let mut j: usize = 0;
                    while j < fields.len()
                        invariant
                            0 <= j <= fields@.len(),
                            views_of(out@) == start + nodes_fields(
                                fields@.subrange(0, j as int),
                                gsegs,
                                i + 1,
                            ),
                        decreases fields@.len() - j,
                    {
                        proof {
                            assert(fields@.subrange(0, j + 1) =~= fields@.subrange(
                                0,
                                j as int,
                            ).push(fields@[j as int]));
                            lemma_nodes_fields_push(
                                fields@.subrange(0, j as int),
                                fields@[j as int],
                                gsegs,
                                i + 1,
                            );
                        }
                        collect_nodes(&fields[j].1, segs, i + 1, out);
                        j += 1;
                    }
                    proof {
                        assert(fields@.subrange(0, fields@.len() as int) =~= fields@);
                    }
                },
                _ => {
                    proof {
                        assert(views_of(out@) =~= views_of(old(out)@) + string_nodes(
                            *v,
                            gsegs,
                            i as int,
                        ));
                    }
                },
            }
        },
        PathSeg::Filter(key, val) => {
            match v {
                JsonValue::Arr(elems) => {
                    let ghost start = views_of(out@);
                    let mut j: usize = 0;
                    while j < elems.len()
                        invariant
                            0 <= j <= elems@.len(),
                            views_of(out@) == start + nodes_filtered(
                                elems@.subrange(0, j as int),
                                key@,
                                val@,
                                gsegs,
                                i + 1,
                            ),
                        decreases elems@.len() - j,
                    {
                        proof {
                            assert(elems@.subrange(0, j + 1) =~= elems@.subrange(
                                0,
                                j as int,
                            ).push(elems@[j as int]));
                            lemma_nodes_filtered_push(
                                elems@.subrange(0, j as int),
                                elems@[j as int],
                                key@,
                                val@,
                                gsegs,
                                i + 1,
                            );
                        }
                        let hit = match elems[j].get(key.as_str()) {
                            Some(c) => match c.as_str() {
                                Some(t) => str_eq(t.as_str(), val.as_str()),
                                None => false,
                            },
                            None => false,
                        };
                        proof {
                            assert(hit == filter_hit(elems@[j as int], key@, val@));
                        }
                        if hit {
                            collect_nodes(&elems[j], segs, i + 1, out);
                        }
                        j += 1;
                    }
                    proof {
                        assert(elems@.subrange(0, elems@.len() as int) =~= elems@);
                    }
                },
                _ => {
                    proof {
                        assert(views_of(out@) =~= views_of(old(out)@) + string_nodes(
                            *v,
                            gsegs,
                            i as int,
                        ));
                    }
                },
            }
        },
    }
}

} // verus!
