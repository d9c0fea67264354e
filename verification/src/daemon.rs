//! The reminder daemon's decision logic. The long-running loop itself — the
//! clock, the store file, notification delivery, sleeping — lives outside;
//! these functions decide, from the daemon's transient state, one medication
//! and the wall clock, what the loop must do, and they guarantee at most one
//! reminder per medication per calendar day.

use vstd::prelude::*;
use crate::database::{spec_due_by_interval, is_medication_due_by_interval, Medication, MedView};
use crate::dates::Moment;
use crate::interval::{spec_parse_interval, parse_interval_to_days};
use crate::text::str_eq;
use crate::time::{spec_is_time_due_at, is_time_due_at};

verus! {

/// The daemon's transient state: the names (exact, case-sensitive) already
/// notified today, and the day-of-month the daemon believes it is.
pub struct DaemonState {
    pub notified_today: Vec<String>,
    pub current_day: u32,
}

/// The mathematical value of a `DaemonState`.
#[verifier::ext_equal]
pub ghost struct DaemonStateView {
    pub notified: Seq<Seq<char>>,
    pub current_day: u32,
}

/// The views of a sequence of names.
pub open spec fn name_views(s: Seq<String>) -> Seq<Seq<char>> {
    Seq::new(s.len(), |i: int| s[i]@)
}

impl View for DaemonState {
    type V = DaemonStateView;

    open spec fn view(&self) -> DaemonStateView {
        DaemonStateView {
            notified: name_views(self.notified_today@),
            current_day: self.current_day,
        }
    }
}

/// Whether `name` is in the notified set.
pub open spec fn spec_notified(names: Seq<Seq<char>>, name: Seq<char>) -> bool {
    exists|i: int| 0 <= i < names.len() && names[i] == name
}

/// `names` with every occurrence of `name` removed.
pub open spec fn remove_name(names: Seq<Seq<char>>, name: Seq<char>) -> Seq<Seq<char>>
    decreases names.len(),
{
    if names.len() == 0 {
        Seq::empty()
    } else {
        let pre = remove_name(names.drop_last(), name);
        if names.last() == name {
            pre
        } else {
            pre.push(names.last())
        }
    }
}

/// A daemon state with an empty notified set.
pub fn fresh_daemon_state(current_day: u32) -> (r: DaemonState)
    ensures
        r@.notified == Seq::<Seq<char>>::empty(),
        r@.current_day == current_day,
{
    let r = DaemonState { notified_today: Vec::new(), current_day };
    proof {
        assert(r@.notified =~= Seq::<Seq<char>>::empty());
    }
    r
}

/// Membership in the notified set, by exact name.
fn contains_name(names: &Vec<String>, name: &str) -> (r: bool)
    ensures
        r == spec_notified(name_views(names@), name@),
{
    let n = names.len();
    for i in 0..n
        invariant
            n == names@.len(),
            forall|k: int| 0 <= k < i ==> name_views(names@)[k] != name@,
    {
        if str_eq(names[i].as_str(), name) {
            proof {
                assert(name_views(names@)[i as int] == name@);
            }
            return true;
        }
        proof {
            assert(name_views(names@)[i as int] == names@[i as int]@);
        }
    }
    false
}

/// Marks a medication as notified today; marking an already-marked name
/// changes nothing, so the set stays free of duplicates.
pub fn mark_notified(state: &mut DaemonState, name: &str)
    ensures
        final(state)@.current_day == old(state)@.current_day,
        final(state)@.notified == if spec_notified(old(state)@.notified, name@) {
            old(state)@.notified
        } else {
            old(state)@.notified.push(name@)
        },
{
    if !contains_name(&state.notified_today, name) {
        state.notified_today.push(String::from_str(name));
        proof {
            assert(name_views(state.notified_today@) =~= old(state)@.notified.push(name@));
        }
    }
}

/// On a new calendar day, forgets every notification mark and adopts the new
/// day; the caller must then run the nightly reset. Within the same day this
/// changes nothing.
pub fn daemon_rollover(state: &mut DaemonState, now_day: u32) -> (reset_needed: bool)
    ensures
        reset_needed == (now_day != old(state)@.current_day),
        final(state)@.current_day == now_day,
        final(state)@.notified == if now_day != old(state)@.current_day {
            Seq::<Seq<char>>::empty()
        } else {
            old(state)@.notified
        },
{
    if now_day != state.current_day {
        state.notified_today.clear();
        state.current_day = now_day;
        proof {
            assert(name_views(state.notified_today@) =~= Seq::<Seq<char>>::empty());
        }
        true
    } else {
        false
    }
}

/// What one poll step decides for one medication.
#[derive(Clone, Copy, PartialEq, Eq, Structural, Debug)]
pub enum PollDecision {
    /// As-needed: no schedule, never reminded.
    AsNeeded,
    /// The medication is taken; its notified mark (if any) was cleared, so a
    /// later untake on a still-due schedule can notify again.
    ClearedNotification,
    /// A reminder is owed now; the caller attempts delivery and marks the
    /// name notified only if delivery succeeds, so a failure retries on the
    /// next cycle.
    Notify,
    /// Nothing to do this cycle.
    Idle,
}

/// What one poll step does: skip as-needed medications; clear the notified
/// mark of a taken medication; ask for a reminder when the medication is
/// untaken, due by time of day and by interval, and not yet notified today.
pub open spec fn spec_poll(st: DaemonStateView, m: MedView, now: Moment) -> (
    DaemonStateView,
    PollDecision,
) {
    if spec_parse_interval(m.medication_frequency) is None {
        (st, PollDecision::AsNeeded)
    } else if m.taken {
        if spec_notified(st.notified, m.name) {
            (
                DaemonStateView { notified: remove_name(st.notified, m.name), ..st },
                PollDecision::ClearedNotification,
            )
        } else {
            (st, PollDecision::Idle)
        }
    } else {
        if spec_is_time_due_at(m.time_of_day, now.hour, now.minute) && spec_due_by_interval(
            m.last_dose_date,
            m.medication_frequency,
            now.date,
        ) && !spec_notified(st.notified, m.name) {
            (st, PollDecision::Notify)
        } else {
            (st, PollDecision::Idle)
        }
    }
}

/// At most one reminder per medication per calendar day: once a delivered
/// reminder has marked the name, polling the same medication again — at any
/// later wall clock, taken or not — never asks for another notification.
/// Only a day rollover, or taking and then untaking the medication, can
/// clear the mark.
pub proof fn lemma_at_most_one_reminder(
    st: DaemonStateView,
    m: MedView,
    now1: Moment,
    now2: Moment,
)
    requires
        spec_poll(st, m, now1).1 == PollDecision::Notify,
    ensures
        spec_poll(
            DaemonStateView { notified: st.notified.push(m.name), ..st },
            m,
            now2,
        ).1 != PollDecision::Notify,
{
    let marked = DaemonStateView { notified: st.notified.push(m.name), ..st };
    assert(marked.notified[st.notified.len() as int] == m.name);
    assert(spec_notified(marked.notified, m.name));
}

/// Removes every occurrence of `name` from the notified set.
fn remove_notified(names: &mut Vec<String>, name: &str)
    ensures
        name_views(final(names)@) == remove_name(name_views(old(names)@), name@),
{
    let ghost orig = name_views(old(names)@);
    let mut kept: Vec<String> = Vec::new();
    let ghost mut processed: int = 0;
    while names.len() > 0
        invariant
            orig == name_views(old(names)@),
            0 <= processed <= orig.len(),
            name_views(names@) =~= orig.skip(processed),
            name_views(kept@) =~= remove_name(orig.take(processed), name@),
        decreases names.len(),
    {
        let ghost pre = names@;
        let ghost pre_kept = kept@;
        proof {
            assert(name_views(pre).len() == pre.len());
            assert(orig.skip(processed).len() == orig.len() - processed);
            assert(processed < orig.len());
            assert(name_views(pre)[0] == pre[0]@);
            assert(orig.skip(processed)[0] == orig[processed]);
        }
        let s = names.remove(0);
        proof {
            assert(s@ == orig[processed]);
            assert(orig.take(processed + 1).drop_last() =~= orig.take(processed));
            assert(orig.take(processed + 1).len() == processed + 1);
            assert(orig.take(processed + 1).last() == orig[processed]);
        }
        if !str_eq(s.as_str(), name) {
            kept.push(s);
            proof {
                assert(remove_name(orig.take(processed + 1), name@) == remove_name(
                    orig.take(processed),
                    name@,
                ).push(orig[processed]));
                assert forall|k: int|
                    0 <= k < kept@.len() implies name_views(kept@)[k] == remove_name(
                    orig.take(processed + 1),
                    name@,
                )[k] by {
                    if k < pre_kept.len() {
                        assert(kept@[k] == pre_kept[k]);
                        assert(name_views(pre_kept)[k] == pre_kept[k]@);
                    }
                }
                assert(name_views(kept@) =~= remove_name(orig.take(processed + 1), name@));
            }
        } else {
            proof {
                assert(remove_name(orig.take(processed + 1), name@) == remove_name(
                    orig.take(processed),
                    name@,
                ));
            }
        }
        proof {
            assert forall|k: int|
                0 <= k < names@.len() implies name_views(names@)[k] == orig.skip(processed + 1)[k]
            by {
                assert(names@[k] == pre[k + 1]);
                assert(name_views(pre)[k + 1] == pre[k + 1]@);
                assert(orig.skip(processed)[k + 1] == orig[processed + 1 + k]);
                assert(orig.skip(processed + 1)[k] == orig[processed + 1 + k]);
            }
            processed = processed + 1;
            assert(name_views(names@) =~= orig.skip(processed));
        }
    }
    proof {
        assert(orig.take(processed) =~= orig);
    }
    *names = kept;
}

/// Decides one medication's poll step and applies any state change.
pub fn poll_medication(state: &mut DaemonState, med: &Medication, now: &Moment) -> (r:
    PollDecision)
    requires
        now.wf(),
    ensures
        (final(state)@, r) == spec_poll(old(state)@, med@, *now),
{
    if parse_interval_to_days(med.medication_frequency.as_str()).is_none() {
        return PollDecision::AsNeeded;
    }
    if med.taken {
        if contains_name(&state.notified_today, med.name.as_str()) {
            remove_notified(&mut state.notified_today, med.name.as_str());
            proof {
                assert(state@ =~~= spec_poll(old(state)@, med@, *now).0);
            }
            return PollDecision::ClearedNotification;
        }
        return PollDecision::Idle;
    }
    if is_time_due_at(med.time_of_day.as_str(), now.hour, now.minute)
        && is_medication_due_by_interval(
        med.last_dose_date.as_str(),
        med.medication_frequency.as_str(),
        &now.date,
    ) && !contains_name(&state.notified_today, med.name.as_str()) {
        PollDecision::Notify
    } else {
        PollDecision::Idle
    }
}

} // verus!
