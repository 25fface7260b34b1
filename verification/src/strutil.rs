use vstd::prelude::*;

verus! {

/// The characters of `pat` occur in `text` starting at position `i`.
pub open spec fn occurs_at(text: Seq<char>, pat: Seq<char>, i: int) -> bool {
    &&& 0 <= i
    &&& i + pat.len() <= text.len()
    &&& text.subrange(i, i + pat.len() as int) == pat
}

/// `i` is the first position at or after `from` at which `pat` occurs in
/// `text`.
pub open spec fn is_first_occurrence_from(
    text: Seq<char>,
    pat: Seq<char>,
    from: int,
    i: int,
) -> bool {
    &&& occurs_at(text, pat, i)
    &&& from <= i
    &&& forall|j: int| from <= j < i ==> !occurs_at(text, pat, j)
}

/// `pat` occurs in `text` at or after position `from`.
pub open spec fn occurs_from(text: Seq<char>, pat: Seq<char>, from: int) -> bool {
    exists|i: int| from <= i && occurs_at(text, pat, i)
}

/// The name of what `str::to_lowercase` returns for a given string.
pub uninterp spec fn lower_of(s: Seq<char>) -> Seq<char>;

/// Relies on str::to_lowercase: the result depends on the characters alone.
#[verifier::external_body]
pub fn lowercase(s: &str) -> (r: String)
    ensures
        r@ == lower_of(s@),
{
    s.to_lowercase()
}

/// Character-by-character string equality.
pub fn str_eq(a: &str, b: &str) -> (r: bool)
    ensures
        r == (a@ == b@),
{
    let alen = a.unicode_len();
    let blen = b.unicode_len();
    if alen != blen {
        return false;
    }
    let mut i: usize = 0;
    while i < alen
        invariant
            alen == a@.len(),
            blen == b@.len(),
            alen == blen,
            0 <= i <= alen,
            forall|j: int| 0 <= j < i ==> a@[j] == b@[j],
        decreases alen - i,
    {
        if a.get_char(i) != b.get_char(i) {
            return false;
        }
        i += 1;
    }
    proof {
        assert(a@ =~= b@);
    }
    true
}

/// Whether `pat` is a prefix of `text`, by characters.
pub fn str_starts_with(text: &str, pat: &str) -> (r: bool)
    ensures
        r == pat@.is_prefix_of(text@),
{
    let tlen = text.unicode_len();
    let plen = pat.unicode_len();
    if plen > tlen {
        assert(!pat@.is_prefix_of(text@));
        return false;
    }
    let mut i: usize = 0;
    while i < plen
        invariant
            tlen == text@.len(),
            plen == pat@.len(),
            plen <= tlen,
            0 <= i <= plen,
            forall|j: int| 0 <= j < i ==> text@[j] == pat@[j],
        decreases plen - i,
    {
        if text.get_char(i) != pat.get_char(i) {
            assert(text@.subrange(0, plen as int)[i as int] != pat@[i as int]);
            return false;
        }
        i += 1;
    }
    proof {
        assert(text@.subrange(0, plen as int) =~= pat@);
    }
    true
}

/// First occurrence of `pat` in `text` at or after position `from`, as a
/// character position.
pub fn find_first_from(text: &str, pat: &str, from: usize) -> (r: Option<usize>)
    ensures
        match r {
            Some(i) => is_first_occurrence_from(text@, pat@, from as int, i as int),
            None => !occurs_from(text@, pat@, from as int),
        },
{
    let tlen = text.unicode_len();
    let plen = pat.unicode_len();
    if plen > tlen || from > tlen - plen {
        proof {
            assert forall|i: int| from <= i implies !occurs_at(text@, pat@, i) by {}
        }
        return None;
    }
    if plen == 0 {
        proof {
            assert(text@.subrange(from as int, from as int) =~= pat@);
        }
        return Some(from);
    }
    let mut i: usize = from;
    while i <= tlen - plen
        invariant
            tlen == text@.len(),
            plen == pat@.len(),
            0 < plen <= tlen,
            from <= i <= tlen - plen + 1,
            forall|j: int| from <= j < i ==> !occurs_at(text@, pat@, j),
        decreases tlen - i,
    {
        let mut k: usize = 0;
        let mut hit = true;
        while k < plen
            invariant
                tlen == text@.len(),
                plen == pat@.len(),
                i + plen <= tlen,
                0 <= k <= plen,
                hit ==> forall|j: int| 0 <= j < k ==> text@[i + j] == pat@[j],
                !hit ==> !occurs_at(text@, pat@, i as int),
            decreases plen - k,
        {
            if text.get_char(i + k) != pat.get_char(k) {
                proof {
                    if occurs_at(text@, pat@, i as int) {
                        assert(text@.subrange(i as int, i + plen as int)[k as int] == pat@[k as int]);
                    }
                }
                hit = false;
                k = plen;
            } else {
                k += 1;
            }
        }
        if hit {
            proof {
                assert(text@.subrange(i as int, i + plen as int) =~= pat@);
            }
            return Some(i);
        }
        i += 1;
    }
    proof {
        assert forall|j: int| from <= j implies !occurs_at(text@, pat@, j) by {
            if j + plen > tlen {
            } else {
                assert(j < i);
            }
        }
    }
    None
}

/// Parse a nonnegative decimal integer that must fit in a `u32`.
pub open spec fn spec_digits_value(s: Seq<char>, i: int) -> int
    decreases i,
{
    if i <= 0 {
        0
    } else {
        spec_digits_value(s, i - 1) * 10 + (s[i - 1] as int - '0' as int)
    }
}

/// Every character of `s` is a decimal digit.
pub open spec fn all_digits(s: Seq<char>) -> bool {
    forall|i: int| 0 <= i < s.len() ==> '0' <= #[trigger] s[i] <= '9'
}

/// The nonnegative integer a string of digits denotes; meaningful only
/// when `all_digits(s)` holds and `s` is nonempty.
pub open spec fn spec_dec_value(s: Seq<char>) -> int {
    spec_digits_value(s, s.len() as int)
}

/// Parse a string of decimal digits into a `u32`; rejects empty strings,
/// non-digit characters, and values that do not fit.
pub fn parse_u32_dec(s: &str) -> (r: Option<u32>)
    ensures
        match r {
            Some(v) => s@.len() > 0 && all_digits(s@) && v == spec_dec_value(s@),
            None => s@.len() == 0 || !all_digits(s@) || spec_dec_value(s@) > u32::MAX,
        },
{
    let len = s.unicode_len();
    if len == 0 {
        return None;
    }
    let mut acc: u32 = 0;
    let mut i: usize = 0;
    while i < len
        invariant
            len == s@.len(),
            0 <= i <= len,
            all_digits(s@.subrange(0, i as int)),
            acc == spec_digits_value(s@, i as int),
            spec_digits_value(s@, i as int) >= 0,
        decreases len - i,
    {
        let c = s.get_char(i);
        if c < '0' || c > '9' {
            proof {
                assert(s@[i as int] == c);
                assert(!('0' <= s@[i as int] <= '9'));
            }
            return None;
        }
        let d: u32 = (c as u32) - ('0' as u32);
        if acc > (u32::MAX - d) / 10 {
            proof {
                if all_digits(s@) {
                    lemma_digits_value_monotone(s@, i + 1, s@.len() as int);
                }
            }
            return None;
        }
        acc = acc * 10 + d;
        proof {
            assert(s@.subrange(0, i + 1) =~= s@.subrange(0, i as int).push(s@[i as int]));
        }
        i += 1;
    }
    proof {
        assert(s@.subrange(0, len as int) =~= s@);
    }
    Some(acc)
}

/// A longer digit string (with digits beyond position `i`) denotes a value
/// at least as large as its prefix.
pub proof fn lemma_digits_value_monotone(s: Seq<char>, i: int, j: int)
    requires
        0 <= i <= j <= s.len(),
        all_digits(s),
    ensures
        spec_digits_value(s, j) >= spec_digits_value(s, i),
        spec_digits_value(s, i) >= 0,
    decreases j,
{
    if i > 0 {
        lemma_digits_value_monotone(s, i - 1, i - 1);
    }
    if j > i {
        lemma_digits_value_monotone(s, i, j - 1);
    }
}

/// Whether `pat` is a suffix of `text`, by characters.
pub fn str_ends_with(text: &str, pat: &str) -> (r: bool)
    ensures
        r == pat@.is_suffix_of(text@),
{
    let tlen = text.unicode_len();
    let plen = pat.unicode_len();
    if plen > tlen {
        assert(!pat@.is_suffix_of(text@));
        return false;
    }
    let base = tlen - plen;
    let mut i: usize = 0;
    while i < plen
        invariant
            tlen == text@.len(),
            plen == pat@.len(),
            plen <= tlen,
            base == tlen - plen,
            0 <= i <= plen,
            forall|j: int| 0 <= j < i ==> text@[base + j] == pat@[j],
        decreases plen - i,
    {
        if text.get_char(base + i) != pat.get_char(i) {
            proof {
                assert(text@.subrange(base as int, tlen as int)[i as int] == text@[base + i]);
            }
            return false;
        }
        i += 1;
    }
    proof {
        assert(text@.subrange(base as int, tlen as int) =~= pat@);
    }
    true
}

/// Copy a vector of strings.
pub fn clone_string_vec(v: &Vec<String>) -> (r: Vec<String>)
    ensures
        r@ == v@,
{
    let mut out: Vec<String> = Vec::new();
    let mut i: usize = 0;
    while i < v.len()
        invariant
            0 <= i <= v@.len(),
            out@ == v@.subrange(0, i as int),
        decreases v@.len() - i,
    {
        out.push(v[i].clone());
        proof {
            assert(out@ =~= v@.subrange(0, i + 1));
        }
        i += 1;
    }
    proof {
        assert(v@.subrange(0, v@.len() as int) =~= v@);
    }
    out
}

} // verus!
