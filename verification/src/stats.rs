//! Resource figures read from the Linux pseudo-files: the container's
//! cgroup memory limit and usage (v2, else v1), the system's memory from
//! `/proc/meminfo`, this process's resident set, and disk usage.
use vstd::prelude::*;

use crate::text::{
    chars_of, first_word, first_word_u64, has_prefix, lines, lines_spec, parse_u64, parse_u64_spec,
    str_eq, string_from_chars, strings_view, strip_prefix, trim, trim_bounds,
};

verus! {

/// Memory figures, in KiB, and where they come from (`cgroup_v2`,
/// `cgroup_v1` or `system`).
pub struct Memory {
    pub source: &'static str,
    pub total_kb: u64,
    pub available_kb: u64,
    pub used_kb: u64,
}

/// A cgroup v1 limit at or above this is the "unlimited" sentinel, not a quota.
pub const CGROUP_V1_UNLIMITED_THRESHOLD: u64 = 4_611_686_018_427_387_904;

/// `a - b`, or `0` when `b` is larger.
pub open spec fn sat_sub(a: u64, b: u64) -> u64 {
    if a >= b {
        (a - b) as u64
    } else {
        0
    }
}

/// `m` holds these figures, in KiB.
pub open spec fn memory_is(m: Memory, source: Seq<char>, total_kb: u64, available_kb: u64, used_kb: u64) -> bool {
    &&& m.source@ == source
    &&& m.total_kb == total_kb
    &&& m.available_kb == available_kb
    &&& m.used_kb == used_kb
}

/// The number that starts a line's remainder: its first
/// whitespace-separated word, read as a `u64`.
pub open spec fn field_value(rest: Seq<char>) -> Option<u64> {
    match first_word(rest) {
        Some(w) => parse_u64_spec(w),
        None => None,
    }
}

/// The value on the last line that starts with `key`; none when no line does.
pub open spec fn last_field(lines: Seq<Seq<char>>, key: Seq<char>) -> Option<u64>
    decreases lines.len(),
{
    if lines.len() == 0 {
        None
    } else if has_prefix(lines.last(), key) {
        field_value(lines.last().skip(key.len() as int))
    } else {
        last_field(lines.drop_last(), key)
    }
}

/// What follows `key` on the first line that starts with it.
pub open spec fn first_rest(lines: Seq<Seq<char>>, key: Seq<char>) -> Option<Seq<char>>
    decreases lines.len(),
{
    if lines.len() == 0 {
        None
    } else if has_prefix(lines[0], key) {
        Some(lines[0].skip(key.len() as int))
    } else {
        first_rest(lines.drop_first(), key)
    }
}

/// The value on the last line of `lines` that starts with `key`.
fn last_field_value(lines: &Vec<String>, key: &str) -> (r: Option<u64>)
    ensures
        r == last_field(strings_view(lines@), key@),
{
    let ghost ls = strings_view(lines@);
    let mut value: Option<u64> = None;
    let mut i: usize = 0;
    assert(ls.take(0) =~= Seq::<Seq<char>>::empty());
    while i < lines.len()
        invariant
            i <= lines@.len(),
            ls == strings_view(lines@),
            value == last_field(ls.take(i as int), key@),
        decreases lines.len() - i,
    {
        assert(ls.take(i + 1).drop_last() =~= ls.take(i as int));
        assert(ls.take(i + 1).last() == lines@[i as int]@);
        match strip_prefix(lines[i].as_str(), key) {
            Some(rest) => {
                let cs = chars_of(rest.as_str());
                assert(cs@.subrange(0, cs@.len() as int) =~= rest@);
                value = first_word_u64(&cs, 0, cs.len());
            },
            None => {},
        }
        i += 1;
    }
    assert(ls.take(i as int) =~= ls);
    value
}

/// What follows `key` on the first line of `lines` that starts with it.
fn first_rest_of(lines: &Vec<String>, key: &str) -> (r: Option<String>)
    ensures
        match first_rest(strings_view(lines@), key@) {
            Some(t) => r matches Some(s) && s@ == t,
            None => r is None,
        },
{
    let ghost ls = strings_view(lines@);
    let mut i: usize = 0;
    assert(ls.skip(0) =~= ls);
    while i < lines.len()
        invariant
            i <= lines@.len(),
            ls == strings_view(lines@),
            first_rest(ls, key@) == first_rest(ls.skip(i as int), key@),
        decreases lines.len() - i,
    {
        assert(ls.skip(i as int)[0] == lines@[i as int]@);
        assert(ls.skip(i as int).drop_first() =~= ls.skip(i + 1));
        match strip_prefix(lines[i].as_str(), key) {
            Some(rest) => {
                return Some(rest);
            },
            None => {},
        }
        i += 1;
    }
    assert(ls.skip(i as int) =~= Seq::<Seq<char>>::empty());
    None
}

/// `s`, trimmed, read as a `u64`.
pub fn parse_trimmed_u64(s: &str) -> (r: Option<u64>)
    ensures
        r == parse_u64_spec(trim(s@)),
{
    let cs = chars_of(s);
    let (a, b) = trim_bounds(&cs, 0, cs.len());
    assert(cs@.subrange(0, cs@.len() as int) =~= s@);
    parse_u64(&cs, a, b)
}

/// Whether `s`, trimmed, is `word`.
fn trimmed_is(s: &str, word: &str) -> (r: bool)
    ensures
        r == (trim(s@) == word@),
{
    let cs = chars_of(s);
    let (a, b) = trim_bounds(&cs, 0, cs.len());
    assert(cs@.subrange(0, cs@.len() as int) =~= s@);
    let t = string_from_chars(&cs, a, b);
    str_eq(t.as_str(), word)
}

/// The system's memory from the text of `/proc/meminfo` (none when the
/// file could not be read): total and available from the last
/// `MemTotal:` and `MemAvailable:` lines (the first word after the key, in
/// KiB), used as their difference; none when either line is missing or
/// not a number.
pub open spec fn meminfo_memory(m: Option<Memory>, content: Option<Seq<char>>) -> bool {
    match content {
        Some(c) => match (
            last_field(lines_spec(c), "MemTotal:"@),
            last_field(lines_spec(c), "MemAvailable:"@),
        ) {
            (Some(t), Some(a)) => m matches Some(x) && memory_is(x, "system"@, t, a, sat_sub(t, a)),
            _ => m is None,
        },
        None => m is None,
    }
}

/// The system's memory from `/proc/meminfo` (see `meminfo_memory`).
pub fn read_meminfo(content: Option<&str>) -> (r: Option<Memory>)
    ensures
        meminfo_memory(r, text_view(content)),
{
    let c = match content {
        Some(c) => c,
        None => {
            return None;
        },
    };
    let ls = lines(c);
    let total = last_field_value(&ls, "MemTotal:");
    let available = last_field_value(&ls, "MemAvailable:");
    match (total, available) {
        (Some(t), Some(a)) => Some(
            Memory {
                source: "system",
                total_kb: t,
                available_kb: a,
                used_kb: t.saturating_sub(a),
            },
        ),
        _ => None,
    }
}

/// This process's resident set size, in KiB, from the text of
/// `/proc/self/status`: the first word after `VmRSS:` on the first line
/// that starts with it.
pub fn read_process_rss_kb(content: Option<&str>) -> (r: Option<u64>)
    ensures
        r == match content {
            Some(c) => match first_rest(lines_spec(c@), "VmRSS:"@) {
                Some(rest) => field_value(rest),
                None => None,
            },
            None => None,
        },
{
    let c = match content {
        Some(c) => c,
        None => {
            return None;
        },
    };
    let ls = lines(c);
    match first_rest_of(&ls, "VmRSS:") {
        Some(rest) => {
            let cs = chars_of(rest.as_str());
            assert(cs@.subrange(0, cs@.len() as int) =~= rest@);
            first_word_u64(&cs, 0, cs.len())
        },
        None => None,
    }
}

/// Memory figures from a limit and a usage in bytes.
pub open spec fn limit_memory(m: Memory, source: Seq<char>, limit: u64, used: u64) -> bool {
    memory_is(m, source, limit / 1024, sat_sub(limit, used) / 1024, used / 1024)
}

/// The container's memory from the texts of its cgroup files (none where a
/// file could not be read): cgroup v2's `memory.max` and `memory.current`
/// unless the limit is `max`; else cgroup v1's `memory.limit_in_bytes`
/// and `memory.usage_in_bytes` unless the limit is the unlimited sentinel.
/// A limit or usage that is there but not a number gives none.
pub open spec fn cgroup_memory(
    m: Option<Memory>,
    v2_max: Option<Seq<char>>,
    v2_current: Option<Seq<char>>,
    v1_limit: Option<Seq<char>>,
    v1_usage: Option<Seq<char>>,
) -> bool {
    let v2_limited = match v2_max {
        Some(raw) => trim(raw) != "max"@,
        None => false,
    };
    if v2_limited {
        match parse_u64_spec(trim(v2_max.unwrap())) {
            None => m is None,
            Some(limit) => match v2_current {
                None => m is None,
                Some(c) => match parse_u64_spec(trim(c)) {
                    None => m is None,
                    Some(used) => m matches Some(x) && limit_memory(x, "cgroup_v2"@, limit, used),
                },
            },
        }
    } else {
        match v1_limit {
            None => m is None,
            Some(raw) => match parse_u64_spec(trim(raw)) {
                None => m is None,
                Some(limit) => if limit < CGROUP_V1_UNLIMITED_THRESHOLD {
                    match v1_usage {
                        None => m is None,
                        Some(u) => match parse_u64_spec(trim(u)) {
                            None => m is None,
                            Some(used) => m matches Some(x) && limit_memory(x, "cgroup_v1"@, limit, used),
                        },
                    }
                } else {
                    m is None
                },
            },
        }
    }
}

pub open spec fn text_view(o: Option<&str>) -> Option<Seq<char>> {
    match o {
        Some(s) => Some(s@),
        None => None,
    }
}

/// Memory figures from a limit and a usage in bytes.
fn from_limit(source: &'static str, limit: u64, used: u64) -> (r: Memory)
    ensures
        limit_memory(r, source@, limit, used),
{
    Memory {
        source,
        total_kb: limit / 1024,
        used_kb: used / 1024,
        available_kb: limit.saturating_sub(used) / 1024,
    }
}

/// The container's memory from its cgroup files (see `cgroup_memory`).
pub fn read_cgroup_memory(
    v2_max: Option<&str>,
    v2_current: Option<&str>,
    v1_limit: Option<&str>,
    v1_usage: Option<&str>,
) -> (r: Option<Memory>)
    ensures
        cgroup_memory(r, text_view(v2_max), text_view(v2_current), text_view(v1_limit), text_view(v1_usage)),
{
    match v2_max {
        Some(raw) => {
            if !trimmed_is(raw, "max") {
                let limit = match parse_trimmed_u64(raw) {
                    Some(l) => l,
                    None => {
                        return None;
                    },
                };
                let used = match v2_current {
                    Some(c) => match parse_trimmed_u64(c) {
                        Some(u) => u,
                        None => {
                            return None;
                        },
                    },
                    None => {
                        return None;
                    },
                };
                return Some(from_limit("cgroup_v2", limit, used));
            }
        },
        None => {},
    }
    match v1_limit {
        Some(raw) => {
            let limit = match parse_trimmed_u64(raw) {
                Some(l) => l,
                None => {
                    return None;
                },
            };
            if limit < CGROUP_V1_UNLIMITED_THRESHOLD {
                let used = match v1_usage {
                    Some(u) => match parse_trimmed_u64(u) {
                        Some(x) => x,
                        None => {
                            return None;
                        },
                    },
                    None => {
                        return None;
                    },
                };
                return Some(from_limit("cgroup_v1", limit, used));
            }
            None
        },
        None => None,
    }
}

/// The memory figures to report: the container's cgroup limit when one is
/// set, else the system's from `/proc/meminfo`.
pub fn read_memory(
    v2_max: Option<&str>,
    v2_current: Option<&str>,
    v1_limit: Option<&str>,
    v1_usage: Option<&str>,
    meminfo: Option<&str>,
) -> (r: Option<Memory>)
    ensures
        if cgroup_memory(
            None,
            text_view(v2_max),
            text_view(v2_current),
            text_view(v1_limit),
            text_view(v1_usage),
        ) {
            meminfo_memory(r, text_view(meminfo))
        } else {
            cgroup_memory(r, text_view(v2_max), text_view(v2_current), text_view(v1_limit), text_view(v1_usage))
        },
{
    match read_cgroup_memory(v2_max, v2_current, v1_limit, v1_usage) {
        Some(m) => Some(m),
        None => read_meminfo(meminfo),
    }
}

/// A filesystem's size, free space available to unprivileged users, and
/// the difference, in bytes.
pub struct DiskUsage {
    pub total_bytes: u64,
    pub available_bytes: u64,
    pub used_bytes: u64,
}

/// Disk usage from `statvfs` figures: `blocks` and `available_blocks` of
/// `block_size` bytes each.
pub fn disk_usage(blocks: u64, available_blocks: u64, block_size: u64) -> (r: DiskUsage)
    requires
        blocks * block_size <= u64::MAX,
        available_blocks * block_size <= u64::MAX,
    ensures
        r.total_bytes == blocks * block_size,
        r.available_bytes == available_blocks * block_size,
        r.used_bytes == sat_sub(r.total_bytes, r.available_bytes),
{
    let total = blocks * block_size;
    let available = available_blocks * block_size;
    DiskUsage { total_bytes: total, available_bytes: available, used_bytes: total.saturating_sub(available) }
}

} // verus!
