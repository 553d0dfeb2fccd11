//! The CPU breaker's decisions: the container's CPU time from cgroup
//! `cpu.stat`, the threshold, and whether a request is turned away.
use vstd::prelude::*;

use crate::stats::{first_rest, parse_trimmed_u64, text_view};
use crate::text::{chars_of, lines, lines_spec, parse_u64_spec, strings_view, strip_prefix, trim, unsigned_value};

verus! {

/// The threshold, in percent, when none is configured.
pub const DEFAULT_THRESHOLD_PCT: u8 = 90;

/// Cumulative CPU time the container has used, in microseconds, from the
/// text of cgroup v2's `cpu.stat`: the number after `usage_usec ` on the
/// first line that starts with it.
pub fn read_cgroup_cpu_usec(content: Option<&str>) -> (r: Option<u64>)
    ensures
        r == match text_view(content) {
            Some(c) => match first_rest(lines_spec(c), "usage_usec "@) {
                Some(rest) => parse_u64_spec(trim(rest)),
                None => None,
            },
            None => None,
        },
{
    let c = match content {
        Some(c) => c,
        None => {
            return None;
        },
    };
    let ls = lines(c);
    let ghost v = strings_view(ls@);
    let mut i: usize = 0;
    assert(v.skip(0) =~= v);
    while i < ls.len()
        invariant
            i <= ls@.len(),
            v == strings_view(ls@),
            v == lines_spec(c@),
            text_view(content) == Some(c@),
            first_rest(v, "usage_usec "@) == first_rest(v.skip(i as int), "usage_usec "@),
        decreases ls.len() - i,
    {
        assert(v.skip(i as int)[0] == ls@[i as int]@);
        assert(v.skip(i as int).drop_first() =~= v.skip(i + 1));
        match strip_prefix(ls[i].as_str(), "usage_usec ") {
            Some(rest) => {
                assert(first_rest(v.skip(i as int), "usage_usec "@) == Some(rest@));
                return parse_trimmed_u64(rest.as_str());
            },
            None => {},
        }
        i += 1;
    }
    assert(v.skip(i as int) =~= Seq::<Seq<char>>::empty());
    None
}

/// `s.parse::<u8>()`, as an option.
pub open spec fn parse_u8_spec(s: Seq<char>) -> Option<u8> {
    match unsigned_value(s) {
        Some(v) => if v <= u8::MAX {
            Some(v as u8)
        } else {
            None
        },
        None => None,
    }
}

/// The breaker's threshold, in percent: the configured value when it is a
/// `u8`, else `DEFAULT_THRESHOLD_PCT`.
pub fn cpu_threshold(configured: Option<&str>) -> (r: u8)
    ensures
        r == match text_view(configured) {
            Some(s) => match parse_u8_spec(s) {
                Some(v) => v,
                None => DEFAULT_THRESHOLD_PCT,
            },
            None => DEFAULT_THRESHOLD_PCT,
        },
{
    match configured {
        Some(s) => {
            let cs = chars_of(s);
            assert(cs@.subrange(0, cs@.len() as int) =~= s@);
            match crate::text::parse_u64(&cs, 0, cs.len()) {
                Some(v) => if v <= 255 {
                    v as u8
                } else {
                    DEFAULT_THRESHOLD_PCT
                },
                None => {
                    proof {
                        if let Some(v) = unsigned_value(s@) {
                            assert(v > u64::MAX);
                        }
                    }
                    DEFAULT_THRESHOLD_PCT
                },
            }
        },
        None => DEFAULT_THRESHOLD_PCT,
    }
}

/// The usage gauge's value for a measured percentage: at most 100.
pub fn usage_gauge(pct: u64) -> (r: u8)
    ensures
        r == if pct <= 100 {
            pct
        } else {
            100
        },
{
    if pct <= 100 {
        pct as u8
    } else {
        100
    }
}

/// Whether the breaker turns a request away: usage at or above the threshold.
pub fn breaker_trips(usage: u8, threshold: u8) -> (r: bool)
    ensures
        r == (usage >= threshold),
{
    usage >= threshold
}

} // verus!
