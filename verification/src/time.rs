//! Time-of-day parsing and the "is this scheduled time already past" test.

use vstd::prelude::*;
use crate::text::{
    eq_ignore_case, find_char, first_idx, lower, parse_u32_spec, parse_u32_str, trim, trim_str,
};

verus! {

/// The named times of day the parser accepts, already case-folded.
pub open spec fn spec_named_time(tl: Seq<char>) -> Option<(u32, u32)> {
    if tl == "morning"@ || tl == "breakfast"@ {
        Some((8u32, 0u32))
    } else if tl == "midmorning"@ || tl == "mid-morning"@ {
        Some((10u32, 0u32))
    } else if tl == "noon"@ || tl == "midday"@ || tl == "lunch"@ {
        Some((12u32, 0u32))
    } else if tl == "afternoon"@ {
        Some((15u32, 0u32))
    } else if tl == "evening"@ || tl == "dinner"@ {
        Some((18u32, 0u32))
    } else if tl == "night"@ || tl == "bedtime"@ {
        Some((21u32, 0u32))
    } else if tl == "midnight"@ {
        Some((0u32, 0u32))
    } else {
        None
    }
}

/// What `parse_time` returns, on the view of its input: a named time of day;
/// or `<hour>:<minute>` with exactly one `:`, both parts numeric, the hour
/// below 24 and the minute below 60; or a bare hour below 24 (minute 0);
/// anything else is rejected.
pub open spec fn spec_parse_time(s: Seq<char>) -> Option<(u32, u32)> {
    let t = trim(s);
    let tl = lower(t);
    if spec_named_time(tl) is Some {
        spec_named_time(tl)
    } else {
        let ci = first_idx(t, ':');
        if ci < t.len() {
            let rest = t.skip(ci + 1);
            if first_idx(rest, ':') < rest.len() {
                None
            } else {
                let hp = trim(t.take(ci));
                let mp = trim(rest);
                match (parse_u32_spec(hp), parse_u32_spec(mp)) {
                    (Some(h), Some(m)) => if h < 24 && m < 60 {
                        Some((h, m))
                    } else {
                        None
                    },
                    _ => None,
                }
            }
        } else {
            match parse_u32_spec(t) {
                Some(h) => if h < 24 {
                    Some((h, 0u32))
                } else {
                    None
                },
                None => None,
            }
        }
    }
}

/// Whatever `parse_time` accepts is a valid wall-clock time: the hour is
/// below 24 and the minute below 60.
pub proof fn lemma_parse_time_range(s: Seq<char>)
    ensures
        spec_parse_time(s) matches Some(hm) ==> hm.0 < 24 && hm.1 < 60,
{
}

/// Parses a time of day into an (hour, minute) pair.
pub fn parse_time(time_str: &str) -> (r: Option<(u32, u32)>)
    ensures
        r == spec_parse_time(time_str@),
{
    let t = trim_str(time_str);
    if eq_ignore_case(t, "morning") || eq_ignore_case(t, "breakfast") {
        return Some((8, 0));
    }
    if eq_ignore_case(t, "midmorning") || eq_ignore_case(t, "mid-morning") {
        return Some((10, 0));
    }
    if eq_ignore_case(t, "noon") || eq_ignore_case(t, "midday") || eq_ignore_case(t, "lunch") {
        return Some((12, 0));
    }
    if eq_ignore_case(t, "afternoon") {
        return Some((15, 0));
    }
    if eq_ignore_case(t, "evening") || eq_ignore_case(t, "dinner") {
        return Some((18, 0));
    }
    if eq_ignore_case(t, "night") || eq_ignore_case(t, "bedtime") {
        return Some((21, 0));
    }
    if eq_ignore_case(t, "midnight") {
        return Some((0, 0));
    }
    let n = t.unicode_len();
    match find_char(t, ':') {
        Some(ci) => {
            let rest = t.substring_char(ci + 1, n);
            proof {
                assert(rest@ =~= t@.skip(ci + 1));
            }
            if find_char(rest, ':').is_some() {
                return None;
            }
            let hp = trim_str(t.substring_char(0, ci));
            let mp = trim_str(rest);
            proof {
                assert(t@.subrange(0, ci as int) =~= t@.take(ci as int));
            }
            match (parse_u32_str(hp), parse_u32_str(mp)) {
                (Some(h), Some(m)) => {
                    if h < 24 && m < 60 {
                        Some((h, m))
                    } else {
                        None
                    }
                },
                _ => None,
            }
        },
        None => {
            match parse_u32_str(t) {
                Some(h) => {
                    if h < 24 {
                        Some((h, 0))
                    } else {
                        None
                    }
                },
                None => None,
            }
        },
    }
}

/// True when the wall-clock time (`hour`, `minute`) is at or past the
/// scheduled time of day written in `s`; an unparsable schedule is never due.
pub open spec fn spec_is_time_due_at(s: Seq<char>, hour: u32, minute: u32) -> bool {
    match spec_parse_time(s) {
        Some(hm) => hour > hm.0 || (hour == hm.0 && minute >= hm.1),
        None => false,
    }
}

/// Checks whether the given wall-clock time is at or past the scheduled time.
pub fn is_time_due_at(scheduled_time: &str, hour: u32, minute: u32) -> (r: bool)
    ensures
        r == spec_is_time_due_at(scheduled_time@, hour, minute),
{
    match parse_time(scheduled_time) {
        Some((sh, sm)) => hour > sh || (hour == sh && minute >= sm),
        None => false,
    }
}

/// Once a schedule is due, it stays due for the rest of the day: being due is
/// monotonic in the current wall-clock time.
pub proof fn lemma_time_due_monotonic(s: Seq<char>, h1: u32, m1: u32, h2: u32, m2: u32)
    requires
        spec_is_time_due_at(s, h1, m1),
        h2 > h1 || (h2 == h1 && m2 >= m1),
    ensures
        spec_is_time_due_at(s, h2, m2),
{
}

/// Relies on chrono's `Local::now` with `Timelike::hour` and
/// `Timelike::minute`: the hour is 0 to 23 and the minute 0 to 59.
#[verifier::external_body]
fn local_hour_minute() -> (r: (u32, u32))
    ensures
        r.0 < 24,
        r.1 < 60,
{
    let now = chrono::Local::now();
    (chrono::Timelike::hour(&now), chrono::Timelike::minute(&now))
}

/// Checks whether the local wall clock is at or past the scheduled time; an
/// unparsable schedule is never due. The result is `is_time_due_at` applied
/// to the clock reading at the moment of the call.
pub fn is_time_due(scheduled_time: &str) -> (r: bool)
    ensures
        spec_parse_time(scheduled_time@) is None ==> !r,
        exists|h: u32, m: u32|
            h < 24 && m < 60 && r == #[trigger] spec_is_time_due_at(scheduled_time@, h, m),
{
    let (h, m) = local_hour_minute();
    let r = is_time_due_at(scheduled_time, h, m);
    proof {
        assert(h < 24 && m < 60 && r == spec_is_time_due_at(scheduled_time@, h, m));
    }
    r
}

} // verus!
