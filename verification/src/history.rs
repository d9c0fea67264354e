//! Dose-history reporting: selecting medications by name, windowing dose
//! records by a trailing number of days, and the adherence figure.

use vstd::prelude::*;
use crate::database::{med_views, DoseRecord, DoseView, Medication, MedView};
use crate::dates::{
    lemma_parse_stamp_wf, moment_seconds, moment_seconds_of, parse_stamp, spec_parse_stamp, Moment,
};
use crate::text::{eq_fold, lower};

verus! {

/// The views of a sequence of dose records.
pub open spec fn dose_views(s: Seq<DoseRecord>) -> Seq<DoseView> {
    Seq::new(s.len(), |i: int| s[i]@)
}

/// Whether a dose record falls inside the trailing window. With no cutoff
/// every record counts, and a record whose stamp does not parse is
/// conservatively included.
pub open spec fn spec_record_included(rec: DoseView, cutoff: Option<int>) -> bool {
    match cutoff {
        None => true,
        Some(c) => match spec_parse_stamp(rec.timestamp) {
            None => true,
            Some(mo) => moment_seconds(mo) >= c,
        },
    }
}

/// Indices of the records inside the window, oldest first.
pub open spec fn included_record_idxs(hist: Seq<DoseView>, cutoff: Option<int>) -> Seq<int>
    decreases hist.len(),
{
    if hist.len() == 0 {
        Seq::empty()
    } else {
        let pre = included_record_idxs(hist.drop_last(), cutoff);
        if spec_record_included(hist.last(), cutoff) {
            pre.push(hist.len() - 1)
        } else {
            pre
        }
    }
}

/// The view of an optional cutoff.
pub open spec fn cutoff_view(c: Option<i64>) -> Option<int> {
    match c {
        Some(x) => Some(x as int),
        None => None,
    }
}

/// The second-count cutoff for a trailing window of `days` days before
/// `now`; `None` means an unbounded window.
pub fn history_cutoff(now: &Moment, days: Option<u32>) -> (r: Option<i64>)
    requires
        now.wf(),
    ensures
        match days {
            Some(d) => r matches Some(c) && c == moment_seconds(*now) - d * 86400,
            None => r is None,
        },
{
    match days {
        Some(d) => Some(moment_seconds_of(now) - (d as i64) * 86400),
        None => None,
    }
}

/// Indices into `history` of the records inside the window, oldest first.
pub fn filter_history_indices(history: &Vec<DoseRecord>, cutoff: Option<i64>) -> (r: Vec<usize>)
    ensures
        r@.map_values(|u: usize| u as int) == included_record_idxs(
            dose_views(history@),
            cutoff_view(cutoff),
        ),
{
    let ghost hv = dose_views(history@);
    let ghost cv = cutoff_view(cutoff);
    let n = history.len();
    let mut r: Vec<usize> = Vec::new();
    for i in 0..n
        invariant
            hv == dose_views(history@),
            cv == cutoff_view(cutoff),
            n == history@.len(),
            forall|k: int| 0 <= k < r@.len() ==> r@[k] < n,
            r@.map_values(|u: usize| u as int) =~= included_record_idxs(hv.take(i as int), cv),
    {
        let ghost pre = r@;
        let included = match cutoff {
            None => true,
            Some(c) => {
                match parse_stamp(history[i].timestamp.as_str()) {
                    None => true,
                    Some(mo) => {
                        proof {
                            lemma_parse_stamp_wf(history@[i as int].timestamp@);
                        }
                        moment_seconds_of(&mo) >= c
                    },
                }
            },
        };
        proof {
            assert(hv[i as int] == history@[i as int]@);
            assert(included == spec_record_included(hv[i as int], cv));
            assert(hv.take(i + 1).drop_last() =~= hv.take(i as int));
            assert(hv.take(i + 1).last() == hv[i as int]);
        }
        if included {
            r.push(i);
            proof {
                assert(r@.map_values(|u: usize| u as int) =~= included_record_idxs(
                    hv.take(i + 1),
                    cv,
                ));
            }
        }
    }
    proof {
        assert(hv.take(n as int) =~= hv);
    }
    r
}

/// Indices of the medications matching the optional case-folded name filter,
/// in order; with no filter, every index.
pub open spec fn matching_med_idxs(meds: Seq<MedView>, key: Option<Seq<char>>) -> Seq<int>
    decreases meds.len(),
{
    if meds.len() == 0 {
        Seq::empty()
    } else {
        let pre = matching_med_idxs(meds.drop_last(), key);
        let keep = match key {
            None => true,
            Some(k) => lower(meds.last().name) == k,
        };
        if keep {
            pre.push(meds.len() - 1)
        } else {
            pre
        }
    }
}

/// The view of an optional name filter: its case-folded characters.
pub open spec fn name_filter_view(name: Option<&String>) -> Option<Seq<char>> {
    match name {
        Some(n) => Some(lower(n@)),
        None => None,
    }
}

/// Indices into `meds` of the medications matching the optional
/// case-insensitive name filter, in order.
pub fn matching_medication_indices(meds: &Vec<Medication>, name: Option<&String>) -> (r: Vec<
    usize,
>)
    ensures
        r@.map_values(|u: usize| u as int) == matching_med_idxs(
            med_views(meds@),
            name_filter_view(name),
        ),
{
    let ghost mv = med_views(meds@);
    let ghost key = name_filter_view(name);
    let n = meds.len();
    let mut r: Vec<usize> = Vec::new();
    for i in 0..n
        invariant
            mv == med_views(meds@),
            key == name_filter_view(name),
            n == meds@.len(),
            forall|k: int| 0 <= k < r@.len() ==> r@[k] < n,
            r@.map_values(|u: usize| u as int) =~= matching_med_idxs(mv.take(i as int), key),
    {
        let keep = match name {
            None => true,
            Some(nm) => eq_fold(meds[i].name.as_str(), nm.as_str()),
        };
        proof {
            assert(mv[i as int] == meds@[i as int]@);
            assert(keep == match key {
                None => true,
                Some(k) => lower(mv[i as int].name) == k,
            });
            assert(mv.take(i + 1).drop_last() =~= mv.take(i as int));
            assert(mv.take(i + 1).last() == mv[i as int]);
        }
        if keep {
            r.push(i);
            proof {
                assert(r@.map_values(|u: usize| u as int) =~= matching_med_idxs(
                    mv.take(i + 1),
                    key,
                ));
            }
        }
    }
    proof {
        assert(mv.take(n as int) =~= mv);
    }
    r
}

/// How many doses a recurring medication owes over a window of days: the
/// window divided by the interval, and at least one.
pub open spec fn spec_expected_doses(days_window: int, interval: int) -> int
    recommends
        interval >= 1,
{
    let e = days_window / interval;
    if e >= 1 {
        e
    } else {
        1
    }
}

/// Expected-dose computation matching `spec_expected_doses`.
pub fn expected_doses(days_window: u32, interval_days: u32) -> (r: u32)
    requires
        interval_days >= 1,
    ensures
        r == spec_expected_doses(days_window as int, interval_days as int),
{
    let e = days_window / interval_days;
    if e >= 1 {
        e
    } else {
        1
    }
}

/// Adherence as tenths of a percent: the dose count against the expected
/// count, rounded to the nearest tenth and capped at 100 percent.
pub open spec fn spec_adherence_tenths(actual: int, expected: int) -> int
    recommends
        actual >= 0,
        expected >= 1,
{
    let t = (actual * 10000 / expected + 5) / 10;
    if t > 1000 {
        1000
    } else {
        t
    }
}

/// Adherence computation matching `spec_adherence_tenths`.
pub fn adherence_tenths(actual_doses: usize, expected: u32) -> (r: u32)
    requires
        expected >= 1,
    ensures
        r == spec_adherence_tenths(actual_doses as int, expected as int),
{
    let a = actual_doses as u64;
    let e = expected as u64;
    if a >= e {
        proof {
            assert(actual_doses as int * 10000 / (expected as int) >= 10000) by (nonlinear_arith)
                requires
                    actual_doses as int >= expected as int,
                    expected as int >= 1,
            ;
        }
        1000
    } else {
        let t = (a * 10000 / e + 5) / 10;
        proof {
            assert((a as int) * 10000 / (e as int) < 10000) by (nonlinear_arith)
                requires
                    0 <= a < e,
                    e >= 1,
            ;
        }
        t as u32
    }
}

} // verus!
