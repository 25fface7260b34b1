use vstd::prelude::*;
use crate::errors::TimelineFilterError;
use crate::jsonpath::views_of;
use crate::strutil::{all_digits, spec_dec_value, str_eq};

verus! {

/// The port the HTTP server binds.
#[derive(Debug, Clone)]
pub struct HttpPort(pub u16);

/// Extra certificate-authority bundle files, from a semicolon list.
#[derive(Debug, Clone)]
pub struct CertificateBundles(pub Vec<String>);

/// Whether a background task runs.
#[derive(Debug, Clone)]
pub struct TaskEnable(pub bool);

/// A task cadence or age bound, in seconds.
#[derive(Debug, Clone)]
pub struct TaskInterval(pub i64);

/// The build identifier the command line reports.
pub fn version() -> (r: String)
    ensures
        r@ == "0.1.0"@,
{
    String::from_str("0.1.0")
}

/// The name of what duration_str's parser yields, in whole seconds, for a
/// human-readable duration such as `30s`, `3m` or `48h`.
pub uninterp spec fn duration_seconds_of(s: Seq<char>) -> Option<i64>;

/// Relies on duration_str::parse_chrono: the parse of a duration string
/// depends on the text alone; seconds via chrono::Duration::num_seconds.
#[verifier::external_body]
pub fn parse_duration_seconds(s: &str) -> (r: Option<i64>)
    ensures
        r == duration_seconds_of(s@),
{
    match duration_str::parse_chrono(s) {
        Ok(d) => Some(d.num_seconds()),
        Err(_) => None,
    }
}

impl HttpPort {
    /// An empty setting means port 80; otherwise the decimal port number.
    pub fn parse(value: &str) -> (r: Result<HttpPort, TimelineFilterError>)
        ensures
            match r {
                Ok(p) => (value@.len() == 0 && p.0 == 80) || (value@.len() > 0 && all_digits(
                    value@,
                ) && spec_dec_value(value@) <= u16::MAX && p.0 == spec_dec_value(value@)),
                Err(_) => value@.len() > 0 && (!all_digits(value@) || spec_dec_value(value@)
                    > u16::MAX),
            },
    {
        if value.unicode_len() == 0 {
            return Ok(HttpPort(80));
        }
        match crate::strutil::parse_u32_dec(value) {
            Some(v) => {
                if v <= u16::MAX as u32 {
                    Ok(HttpPort(v as u16))
                } else {
                    Err(TimelineFilterError::new("parsing PORT into u16 failed"))
                }
            },
            None => Err(TimelineFilterError::new("parsing PORT into u16 failed")),
        }
    }
}

/// The position of the next `;` at or after `k`, or the end.
pub open spec fn spec_semi_end(s: Seq<char>, k: int) -> int
    decreases s.len() - k,
    when 0 <= k <= s.len()
{
    if k == s.len() {
        k
    } else if s[k] == ';' {
        k
    } else {
        spec_semi_end(s, k + 1)
    }
}

/// The nonempty `;`-separated segments of `s`, from `k` on.
pub open spec fn spec_split_semi(s: Seq<char>, k: int) -> Seq<Seq<char>>
    decreases s.len() - k,
    when 0 <= k <= s.len()
{
    if k == s.len() {
        Seq::empty()
    } else if s[k] == ';' {
        spec_split_semi(s, k + 1)
    } else {
        let e = spec_semi_end(s, k);
        if k < e <= s.len() {
            seq![s.subrange(k, e)] + (if e < s.len() {
                spec_split_semi(s, e + 1)
            } else {
                Seq::empty()
            })
        } else {
            Seq::empty()
        }
    }
}

impl CertificateBundles {
    /// Split the setting at `;`, dropping empty pieces.
    #[verifier::loop_isolation(false)]
    pub fn parse(value: &str) -> (r: CertificateBundles)
        ensures
            views_of(r.0@) == spec_split_semi(value@, 0),
    {
        let len = value.unicode_len();
        let mut out: Vec<String> = Vec::new();
        let mut k: usize = 0;
        while k < len
            invariant
                len == value@.len(),
                0 <= k <= len,
                views_of(out@) + spec_split_semi(value@, k as int) == spec_split_semi(value@, 0),
            decreases len - k,
        {
            if value.get_char(k) == ';' {
                k += 1;
            } else {
                let mut e = k;
                while e < len
                    invariant
                        len == value@.len(),
                        k <= e <= len,
                        spec_semi_end(value@, k as int) == spec_semi_end(value@, e as int),
                    decreases len - e,
                {
                    if value.get_char(e) == ';' {
                        break ;
                    }
                    e += 1;
                }
                proof {
                    assert(spec_semi_end(value@, k as int) == e as int);
                }
                let piece = value.substring_char(k, e).to_owned();
                out.push(piece);
                proof {
                    assert(views_of(out@) =~= views_of(out@.drop_last()).push(
                        value@.subrange(k as int, e as int),
                    ));
                    if e < len {
                        assert(views_of(out@) + spec_split_semi(value@, e + 1) =~= spec_split_semi(
                            value@,
                            0,
                        ));
                    } else {
                        assert(views_of(out@) + spec_split_semi(value@, e as int)
                            =~= spec_split_semi(value@, 0));
                    }
                }
                if e < len {
                    k = e + 1;
                } else {
                    k = e;
                }
            }
        }
        proof {
            assert(views_of(out@) + spec_split_semi(value@, len as int) =~= views_of(out@));
        }
        CertificateBundles(out)
    }
}

impl TaskEnable {
    /// Exactly `true` or `false`.
    pub fn parse(value: &str) -> (r: Result<TaskEnable, TimelineFilterError>)
        ensures
            match r {
                Ok(t) => (value@ == "true"@ && t.0) || (value@ == "false"@ && !t.0),
                Err(_) => value@ != "true"@ && value@ != "false"@,
            },
    {
        if str_eq(value, "true") {
            Ok(TaskEnable(true))
        } else if str_eq(value, "false") {
            Ok(TaskEnable(false))
        } else {
            Err(TimelineFilterError::new("parsing task enable into bool failed"))
        }
    }
}

impl TaskInterval {
    /// A human-readable duration, kept as whole seconds.
    pub fn parse(value: &str) -> (r: Result<TaskInterval, TimelineFilterError>)
        ensures
            match r {
                Ok(t) => duration_seconds_of(value@) == Some(t.0),
                Err(_) => duration_seconds_of(value@) is None,
            },
    {
        match parse_duration_seconds(value) {
            Some(secs) => Ok(TaskInterval(secs)),
            None => Err(
                TimelineFilterError::new("parsing task interval into duration failed"),
            ),
        }
    }
}

} // verus!
