//! Global laws of the store: uniqueness of names, reversibility of
//! archiving, take/untake as inverses, idempotence of the nightly reset, the
//! exclusion of as-needed medications from scheduling, and preservation of
//! the store invariant by every operation.

use vstd::prelude::*;
use crate::database::{
    empty_db, find_last, find_name, keep_others, lemma_find_name_props, lemma_find_name_is,
    lemma_keep_others_all, names_unique, spec_add, spec_edit, spec_medication_due, spec_remove,
    spec_reset_all, spec_reset_due, spec_reset_med, spec_take, spec_take_all, spec_take_update,
    spec_untake, spec_untake_update, AddOutcome, DbView, MedView, RemoveOutcome, TakeOutcome,
    UntakeOutcome,
};
use crate::dates::{spec_format_date, spec_format_stamp, CivilDate, Moment};
use crate::interval::spec_parse_interval;
use crate::text::{lower, trim};
use crate::time::{spec_is_time_due_at, spec_parse_time};

verus! {

/// `find_name` finds something exactly when some name matches.
pub proof fn lemma_find_name_exists(meds: Seq<MedView>, key: Seq<char>)
    ensures
        (find_name(meds, key) is Some) <==> exists|k: int|
            0 <= k < meds.len() && lower(#[trigger] meds[k].name) == key,
{
    lemma_find_name_props(meds, key);
    if find_name(meds, key) is Some {
        let i = find_name(meds, key)->Some_0;
        assert(0 <= i < meds.len() && lower(meds[i].name) == key);
    }
}

/// Two lists of medications with the same case-folded names in the same
/// places are searched alike.
pub proof fn lemma_find_name_same_keys(a: Seq<MedView>, b: Seq<MedView>, key: Seq<char>)
    requires
        a.len() == b.len(),
        forall|k: int| 0 <= k < a.len() ==> lower(#[trigger] a[k].name) == lower(b[k].name),
    ensures
        find_name(a, key) == find_name(b, key),
{
    lemma_find_name_props(a, key);
    match find_name(a, key) {
        Some(i) => {
            assert forall|k: int| 0 <= k < i implies lower(#[trigger] b[k].name) != key by {
                assert(lower(a[k].name) == lower(b[k].name));
            }
            assert(lower(b[i].name) == key);
            lemma_find_name_is(b, key, i);
        },
        None => {
            assert forall|k: int| 0 <= k < a.len() implies lower(#[trigger] b[k].name) != key by {
                assert(lower(a[k].name) == lower(b[k].name));
            }
            lemma_find_name_is(b, key, a.len() as int);
        },
    }
}

/// What `find_last` returns: the last match, or nothing when no name
/// matches.
pub proof fn lemma_find_last_props(meds: Seq<MedView>, key: Seq<char>)
    ensures
        match find_last(meds, key) {
            Some(i) => 0 <= i < meds.len() && lower(meds[i].name) == key && forall|k: int|
                i < k < meds.len() ==> lower(#[trigger] meds[k].name) != key,
            None => forall|k: int| 0 <= k < meds.len() ==> lower(#[trigger] meds[k].name) != key,
        },
    decreases meds.len(),
{
    if meds.len() > 0 && lower(meds.last().name) != key {
        lemma_find_last_props(meds.drop_last(), key);
        let d = meds.drop_last();
        assert(forall|k: int| 0 <= k < d.len() ==> d[k] == meds[k]);
    }
}

/// With unique names, removing a name drops exactly the one medication that
/// carries it.
pub proof fn lemma_unique_remove(meds: Seq<MedView>, key: Seq<char>, i: int)
    requires
        names_unique(meds),
        0 <= i < meds.len(),
        lower(meds[i].name) == key,
    ensures
        find_last(meds, key) == Some(i),
        keep_others(meds, key) == meds.remove(i),
    decreases meds.len(),
{
    let d = meds.drop_last();
    assert(forall|k: int| 0 <= k < d.len() ==> d[k] == meds[k]);
    if i == meds.len() - 1 {
        assert(find_last(meds, key) == Some(i));
        assert(forall|k: int| 0 <= k < d.len() ==> lower(#[trigger] d[k].name) != key);
        lemma_find_last_none(d, key);
        lemma_keep_others_all(d, key);
        assert(keep_others(meds, key) =~= meds.remove(i));
    } else {
        assert(lower(meds.last().name) != key);
        assert(names_unique(d));
        lemma_unique_remove(d, key, i);
        assert(keep_others(meds, key) == d.remove(i).push(meds.last()));
        assert(keep_others(meds, key) =~= meds.remove(i));
    }
}

/// Where nothing matches, `find_last` finds nothing.
pub proof fn lemma_find_last_none(meds: Seq<MedView>, key: Seq<char>)
    requires
        forall|k: int| 0 <= k < meds.len() ==> lower(#[trigger] meds[k].name) != key,
    ensures
        find_last(meds, key) is None,
    decreases meds.len(),
{
    if meds.len() > 0 {
        let d = meds.drop_last();
        assert(forall|k: int| 0 <= k < d.len() ==> d[k] == meds[k]);
        lemma_find_last_none(d, key);
    }
}

/// Nothing kept by `keep_others` carries the removed name, and everything
/// kept comes from the original list.
pub proof fn lemma_keep_others_props(meds: Seq<MedView>, key: Seq<char>)
    ensures
        forall|k: int|
            0 <= k < keep_others(meds, key).len() ==> lower(
                (#[trigger] keep_others(meds, key)[k]).name,
            ) != key,
        forall|k: int|
            0 <= k < keep_others(meds, key).len() ==> exists|j: int|
                0 <= j < meds.len() && #[trigger] keep_others(meds, key)[k] == meds[j],
    decreases meds.len(),
{
    if meds.len() > 0 {
        let d = meds.drop_last();
        assert(forall|k: int| 0 <= k < d.len() ==> d[k] == meds[k]);
        lemma_keep_others_props(d, key);
        assert forall|k: int|
            0 <= k < keep_others(meds, key).len() implies exists|j: int|
            0 <= j < meds.len() && #[trigger] keep_others(meds, key)[k] == meds[j] by {
            let pre = keep_others(d, key);
            if k < pre.len() {
                assert(keep_others(meds, key)[k] == pre[k]);
                let j = choose|j: int| 0 <= j < d.len() && pre[k] == d[j];
                assert(keep_others(meds, key)[k] == meds[j]);
            } else {
                assert(keep_others(meds, key)[k] == meds.last());
                assert(keep_others(meds, key)[k] == meds[meds.len() - 1]);
            }
        }
    }
}

/// Name matching is case-insensitive and names are unique: once an add has
/// succeeded (fresh or by unarchiving), adding any case variant of the same
/// name is rejected and leaves the store unchanged.
pub proof fn lemma_add_duplicate_rejected(
    db: DbView,
    name1: Seq<char>,
    dose1: Seq<char>,
    time1: Seq<char>,
    freq1: Seq<char>,
    notes1: Option<Seq<char>>,
    name2: Seq<char>,
    dose2: Seq<char>,
    time2: Seq<char>,
    freq2: Seq<char>,
    notes2: Option<Seq<char>>,
)
    requires
        lower(name1) == lower(name2),
        spec_add(db, name1, dose1, time1, freq1, notes1).1 == AddOutcome::Added || spec_add(
            db,
            name1,
            dose1,
            time1,
            freq1,
            notes1,
        ).1 == AddOutcome::Unarchived,
        trim(name2).len() > 0,
        trim(dose2).len() > 0,
        trim(freq2).len() > 0,
        spec_parse_time(time2) is Some,
    ensures
        spec_add(
            spec_add(db, name1, dose1, time1, freq1, notes1).0,
            name2,
            dose2,
            time2,
            freq2,
            notes2,
        ) == (spec_add(db, name1, dose1, time1, freq1, notes1).0, AddOutcome::AlreadyActive),
{
    let key = lower(name1);
    let db1 = spec_add(db, name1, dose1, time1, freq1, notes1).0;
    if spec_add(db, name1, dose1, time1, freq1, notes1).1 == AddOutcome::Unarchived {
        lemma_find_name_props(db.archived, key);
    }
    let n = db1.medications.len();
    assert(lower(db1.medications[n - 1].name) == key);
    lemma_find_name_exists(db1.medications, lower(name2));
}

/// Take and untake are inverses on the mutable fields: taking an untaken
/// medication and then untaking it restores its taken state, take stamp and
/// history exactly; only `last_dose_date` keeps the date of the undone take.
pub proof fn lemma_take_untake_inverse(db: DbView, name: Seq<char>, now: Moment, i: int)
    requires
        find_name(db.medications, lower(name)) == Some(i),
        0 <= i < db.medications.len(),
        !db.medications[i].taken,
        db.medications[i].wf(),
    ensures
        spec_take(db, name, now).1 == TakeOutcome::Taken,
        spec_untake(spec_take(db, name, now).0, name).1 == UntakeOutcome::Untaken,
        spec_untake(spec_take(db, name, now).0, name).0 == (DbView {
            medications: db.medications.update(
                i,
                (MedView { last_dose_date: spec_format_date(now.date), ..db.medications[i] }),
            ),
            ..db
        }),
{
    let m = db.medications[i];
    let m1 = spec_take_update(m, now);
    let db1 = spec_take(db, name, now).0;
    lemma_find_name_same_keys(db1.medications, db.medications, lower(name));
    assert(db1.medications[i] == m1);
    assert(m1.taken);
    let m2 = spec_untake_update(m1);
    assert(m1.history.len() > 0);
    assert(m2.history =~= m.history);
    assert(m2 =~~= MedView { last_dose_date: spec_format_date(now.date), ..m });
    let db2 = spec_untake(db1, name).0;
    assert(db2.medications =~~= db.medications.update(
        i,
        MedView { last_dose_date: spec_format_date(now.date), ..m },
    ));
    assert(db2 =~~= DbView {
        medications: db.medications.update(
            i,
            MedView { last_dose_date: spec_format_date(now.date), ..db.medications[i] },
        ),
        ..db
    });
}

/// Archiving is reversible: removing a medication and then adding its name
/// back brings it out of the archive with its history and last-dose date
/// unchanged, while dose, time, frequency and notes take the new values and
/// the taken state starts cleared. The archive ends as it began.
pub proof fn lemma_archive_round_trip(
    db: DbView,
    name: Seq<char>,
    dose2: Seq<char>,
    time2: Seq<char>,
    freq2: Seq<char>,
    notes2: Option<Seq<char>>,
    i: int,
)
    requires
        db.wf(),
        find_name(db.medications, lower(name)) == Some(i),
        0 <= i < db.medications.len(),
        trim(name).len() > 0,
        trim(dose2).len() > 0,
        trim(freq2).len() > 0,
        spec_parse_time(time2) is Some,
    ensures
        spec_remove(db, name).1 == RemoveOutcome::Removed,
        spec_add(spec_remove(db, name).0, name, dose2, time2, freq2, notes2).1
            == AddOutcome::Unarchived,
        ({
            let db2 = spec_add(spec_remove(db, name).0, name, dose2, time2, freq2, notes2).0;
            let m = db.medications[i];
            &&& db2.archived == db.archived
            &&& db2.medications.len() == db.medications.len()
            &&& db2.medications.last() == (MedView {
                dose: dose2,
                time_of_day: time2,
                medication_frequency: freq2,
                notes: notes2,
                taken: false,
                taken_at: Seq::empty(),
                ..m
            })
        }),
{
    let key = lower(name);
    let m = db.medications[i];
    lemma_find_name_props(db.medications, key);
    lemma_unique_remove(db.medications, key, i);
    let db1 = spec_remove(db, name).0;
    assert(db1.medications == db.medications.remove(i));
    assert(db1.archived == db.archived.push(m));
    // the removed name is gone from the active list
    lemma_keep_others_props(db.medications, key);
    lemma_find_name_props(db1.medications, key);
    if find_name(db1.medications, key) is Some {
        let j = find_name(db1.medications, key)->Some_0;
        assert(lower(keep_others(db.medications, key)[j].name) != key);
        assert(false);
    }
    // and sits at the end of the archive, which held no other match
    assert forall|k: int| 0 <= k < db.archived.len() implies lower(
        #[trigger] db1.archived[k].name,
    ) != key by {
        assert(db1.archived[k] == db.archived[k]);
        assert(lower(db.medications[i].name) != lower(db.archived[k].name));
    }
    assert(lower(db1.archived[db.archived.len() as int].name) == key);
    lemma_find_name_is(db1.archived, key, db.archived.len() as int);
    // the add therefore unarchives exactly that medication
    let db2 = spec_add(db1, name, dose2, time2, freq2, notes2).0;
    assert(db2.archived =~= db.archived);
    assert(db2.medications.last() == MedView {
        dose: dose2,
        time_of_day: time2,
        medication_frequency: freq2,
        notes: notes2,
        taken: false,
        taken_at: Seq::empty(),
        ..m
    });
}

/// The nightly reset is idempotent: resetting twice on the same day gives
/// what resetting once gives.
pub proof fn lemma_reset_all_idempotent(meds: Seq<MedView>, today: CivilDate)
    ensures
        spec_reset_all(spec_reset_all(meds, today), today) == spec_reset_all(meds, today),
{
    let once = spec_reset_all(meds, today);
    assert forall|i: int| 0 <= i < meds.len() implies spec_reset_med(once[i], today) == once[i] by {
        if spec_reset_due(meds[i], today) {
            assert(!once[i].taken);
        }
    }
    assert(spec_reset_all(once, today) =~= once);
}

/// An as-needed medication has no schedule: it is never in a due list and
/// the nightly reset never touches it, whatever its taken state or history.
pub proof fn lemma_as_needed_excluded(m: MedView, now: Moment, today: CivilDate)
    requires
        spec_parse_interval(m.medication_frequency) is None,
    ensures
        !spec_medication_due(m, now),
        spec_reset_med(m, today) == m,
{
}

/// Replacing active medications pointwise, names and taken bookkeeping kept
/// well formed, keeps the store invariant.
proof fn lemma_pointwise_update_wf(db: DbView, meds2: Seq<MedView>)
    requires
        db.wf(),
        meds2.len() == db.medications.len(),
        forall|k: int|
            0 <= k < meds2.len() ==> (#[trigger] meds2[k]).name == db.medications[k].name,
        forall|k: int| 0 <= k < meds2.len() ==> (#[trigger] meds2[k]).wf(),
    ensures
        (DbView { medications: meds2, ..db }).wf(),
{
}

/// Adding keeps the store invariant: a fresh or unarchived medication enters
/// the active list only under a name held by no active and (afterwards) no
/// archived medication.
pub proof fn lemma_add_preserves_wf(
    db: DbView,
    name: Seq<char>,
    dose: Seq<char>,
    time: Seq<char>,
    freq: Seq<char>,
    notes: Option<Seq<char>>,
)
    requires
        db.wf(),
    ensures
        spec_add(db, name, dose, time, freq, notes).0.wf(),
{
    let key = lower(name);
    if trim(name).len() > 0 && trim(dose).len() > 0 && trim(freq).len() > 0 && spec_parse_time(
        time,
    ) is Some && find_name(db.medications, key) is None {
        lemma_find_name_props(db.medications, key);
        match find_name(db.archived, key) {
            Some(i) => {
                lemma_find_name_props(db.archived, key);
                let m1 = crate::database::spec_unarchived_med(
                    db.archived[i],
                    dose,
                    time,
                    freq,
                    notes,
                );
                let meds1 = db.medications.push(m1);
                let arch1 = db.archived.remove(i);
                db.archived.remove_ensures(i);
                let db1 = spec_add(db, name, dose, time, freq, notes).0;
                assert(db1.medications == meds1 && db1.archived == arch1);
                assert(names_unique(meds1)) by {
                    assert forall|a: int, b: int|
                        0 <= a < b < meds1.len() implies lower(meds1[a].name) != lower(
                        meds1[b].name,
                    ) by {
                        if b == meds1.len() - 1 {
                            assert(meds1[a] == db.medications[a]);
                            assert(lower(meds1[b].name) == key);
                        } else {
                            assert(meds1[a] == db.medications[a]);
                            assert(meds1[b] == db.medications[b]);
                        }
                    }
                }
                assert(names_unique(arch1)) by {
                    assert forall|a: int, b: int|
                        0 <= a < b < arch1.len() implies lower(arch1[a].name) != lower(
                        arch1[b].name,
                    ) by {
                        let a0 = if a < i {
                            a
                        } else {
                            a + 1
                        };
                        let b0 = if b < i {
                            b
                        } else {
                            b + 1
                        };
                        assert(arch1[a] == db.archived[a0]);
                        assert(arch1[b] == db.archived[b0]);
                    }
                }
                assert forall|a: int, b: int|
                    0 <= a < meds1.len() && 0 <= b < arch1.len() implies lower(meds1[a].name)
                    != lower(arch1[b].name) by {
                    let b0 = if b < i {
                        b
                    } else {
                        b + 1
                    };
                    assert(arch1[b] == db.archived[b0]);
                    if a == meds1.len() - 1 {
                        assert(lower(meds1[a].name) == key);
                        assert(lower(db.archived[b0].name) != key);
                    } else {
                        assert(meds1[a] == db.medications[a]);
                    }
                }
                assert forall|k: int| 0 <= k < meds1.len() implies (#[trigger] meds1[k]).wf() by {
                    if k < meds1.len() - 1 {
                        assert(meds1[k] == db.medications[k]);
                    }
                }
                assert forall|k: int| 0 <= k < arch1.len() implies (#[trigger] arch1[k]).wf() by {
                    let k0 = if k < i {
                        k
                    } else {
                        k + 1
                    };
                    assert(arch1[k] == db.archived[k0]);
                }
            },
            None => {
                lemma_find_name_props(db.archived, key);
                let m1 = crate::database::spec_fresh_med(name, dose, time, freq, notes);
                let meds1 = db.medications.push(m1);
                assert(names_unique(meds1)) by {
                    assert forall|a: int, b: int|
                        0 <= a < b < meds1.len() implies lower(meds1[a].name) != lower(
                        meds1[b].name,
                    ) by {
                        if b == meds1.len() - 1 {
                            assert(meds1[a] == db.medications[a]);
                        } else {
                            assert(meds1[a] == db.medications[a]);
                            assert(meds1[b] == db.medications[b]);
                        }
                    }
                }
                assert forall|a: int, b: int|
                    0 <= a < meds1.len() && 0 <= b < db.archived.len() implies lower(
                    meds1[a].name,
                ) != lower(db.archived[b].name) by {
                    if a < meds1.len() - 1 {
                        assert(meds1[a] == db.medications[a]);
                    }
                }
                assert forall|k: int| 0 <= k < meds1.len() implies (#[trigger] meds1[k]).wf() by {
                    if k < meds1.len() - 1 {
                        assert(meds1[k] == db.medications[k]);
                    }
                }
            },
        }
    }
}

/// Removing keeps the store invariant: the archived medication's name was
/// unique in the active list and absent from the archive.
pub proof fn lemma_remove_preserves_wf(db: DbView, name: Seq<char>)
    requires
        db.wf(),
    ensures
        spec_remove(db, name).0.wf(),
{
    let key = lower(name);
    lemma_find_last_props(db.medications, key);
    match find_last(db.medications, key) {
        Some(i) => {
            lemma_unique_remove(db.medications, key, i);
            let m = db.medications[i];
            let meds1 = db.medications.remove(i);
            db.medications.remove_ensures(i);
            let arch1 = db.archived.push(m);
            let db1 = spec_remove(db, name).0;
            assert(db1.medications == meds1 && db1.archived == arch1);
            assert(names_unique(meds1)) by {
                assert forall|a: int, b: int|
                    0 <= a < b < meds1.len() implies lower(meds1[a].name) != lower(
                    meds1[b].name,
                ) by {
                    let a0 = if a < i {
                        a
                    } else {
                        a + 1
                    };
                    let b0 = if b < i {
                        b
                    } else {
                        b + 1
                    };
                    assert(meds1[a] == db.medications[a0]);
                    assert(meds1[b] == db.medications[b0]);
                }
            }
            assert(names_unique(arch1)) by {
                assert forall|a: int, b: int|
                    0 <= a < b < arch1.len() implies lower(arch1[a].name) != lower(
                    arch1[b].name,
                ) by {
                    if b == arch1.len() - 1 {
                        assert(arch1[a] == db.archived[a]);
                        assert(lower(db.medications[i].name) != lower(db.archived[a].name));
                    } else {
                        assert(arch1[a] == db.archived[a]);
                        assert(arch1[b] == db.archived[b]);
                    }
                }
            }
            assert forall|a: int, b: int|
                0 <= a < meds1.len() && 0 <= b < arch1.len() implies lower(meds1[a].name) != lower(
                arch1[b].name,
            ) by {
                let a0 = if a < i {
                    a
                } else {
                    a + 1
                };
                assert(meds1[a] == db.medications[a0]);
                if b == arch1.len() - 1 {
                    assert(lower(arch1[b].name) == key);
                    assert(lower(db.medications[a0].name) != key);
                } else {
                    assert(arch1[b] == db.archived[b]);
                }
            }
            assert forall|k: int| 0 <= k < meds1.len() implies (#[trigger] meds1[k]).wf() by {
                let k0 = if k < i {
                    k
                } else {
                    k + 1
                };
                assert(meds1[k] == db.medications[k0]);
            }
            assert forall|k: int| 0 <= k < arch1.len() implies (#[trigger] arch1[k]).wf() by {
                if k < arch1.len() - 1 {
                    assert(arch1[k] == db.archived[k]);
                }
            }
        },
        None => {},
    }
}

/// The take stamp is never empty, so a taken medication is well formed.
proof fn lemma_stamp_nonempty(now: Moment)
    ensures
        spec_format_stamp(now).len() == 21,
        spec_format_date(now.date).len() == 10,
{
}

/// Taking keeps the store invariant.
pub proof fn lemma_take_preserves_wf(db: DbView, name: Seq<char>, now: Moment)
    requires
        db.wf(),
    ensures
        spec_take(db, name, now).0.wf(),
{
    let key = lower(name);
    lemma_find_name_props(db.medications, key);
    match find_name(db.medications, key) {
        Some(i) => {
            if !db.medications[i].taken {
                lemma_stamp_nonempty(now);
                let meds1 = spec_take(db, name, now).0.medications;
                assert forall|k: int|
                    0 <= k < meds1.len() implies (#[trigger] meds1[k]).name
                    == db.medications[k].name && meds1[k].wf() by {
                    if k != i {
                        assert(meds1[k] == db.medications[k]);
                    }
                }
                lemma_pointwise_update_wf(db, meds1);
            }
        },
        None => {},
    }
}

/// Untaking keeps the store invariant.
pub proof fn lemma_untake_preserves_wf(db: DbView, name: Seq<char>)
    requires
        db.wf(),
    ensures
        spec_untake(db, name).0.wf(),
{
    let key = lower(name);
    lemma_find_name_props(db.medications, key);
    match find_name(db.medications, key) {
        Some(i) => {
            if db.medications[i].taken {
                let meds1 = spec_untake(db, name).0.medications;
                assert forall|k: int|
                    0 <= k < meds1.len() implies (#[trigger] meds1[k]).name
                    == db.medications[k].name && meds1[k].wf() by {
                    if k != i {
                        assert(meds1[k] == db.medications[k]);
                    }
                }
                lemma_pointwise_update_wf(db, meds1);
            }
        },
        None => {},
    }
}

/// Taking everything keeps the store invariant.
pub proof fn lemma_take_all_preserves_wf(db: DbView, now: Moment)
    ensures
        db.wf() ==> (DbView { medications: spec_take_all(db.medications, now), ..db }).wf(),
{
    if db.wf() {
        lemma_stamp_nonempty(now);
        let meds1 = spec_take_all(db.medications, now);
        assert forall|k: int|
            0 <= k < meds1.len() implies (#[trigger] meds1[k]).name == db.medications[k].name
            && meds1[k].wf() by {}
        lemma_pointwise_update_wf(db, meds1);
    }
}

/// Editing keeps the store invariant: the name and the taken bookkeeping are
/// untouched.
pub proof fn lemma_edit_preserves_wf(
    db: DbView,
    name: Seq<char>,
    new_dose: Option<Seq<char>>,
    new_time: Option<Seq<char>>,
    new_freq: Option<Seq<char>>,
    new_notes: Option<Seq<char>>,
)
    requires
        db.wf(),
    ensures
        spec_edit(db, name, new_dose, new_time, new_freq, new_notes).0.wf(),
{
    let db1 = spec_edit(db, name, new_dose, new_time, new_freq, new_notes).0;
    let key = lower(name);
    lemma_find_name_props(db.medications, key);
    if db1 != db {
        let meds1 = db1.medications;
        assert forall|k: int|
            0 <= k < meds1.len() implies (#[trigger] meds1[k]).name == db.medications[k].name
            && meds1[k].wf() by {
            let i = find_name(db.medications, key)->Some_0;
            if k != i {
                assert(meds1[k] == db.medications[k]);
            }
        }
        lemma_pointwise_update_wf(db, meds1);
    }
}

/// The nightly reset keeps the store invariant.
pub proof fn lemma_reset_all_preserves_wf(db: DbView, today: CivilDate)
    ensures
        db.wf() ==> (DbView { medications: spec_reset_all(db.medications, today), ..db }).wf(),
{
    if db.wf() {
        let meds1 = spec_reset_all(db.medications, today);
        assert forall|k: int|
            0 <= k < meds1.len() implies (#[trigger] meds1[k]).name == db.medications[k].name
            && meds1[k].wf() by {}
        lemma_pointwise_update_wf(db, meds1);
    }
}

/// An empty store is well formed; it is what a missing, unreadable or
/// corrupted backing file degrades to.
pub proof fn lemma_empty_db_wf()
    ensures
        empty_db().wf(),
{
}

/// A recurring medication never dosed is due exactly when its scheduled
/// time of day has passed: nothing else gates it, and it stays due on every
/// later day until taken.
pub proof fn lemma_never_dosed_due(m: MedView, now: Moment)
    requires
        !m.taken,
        m.last_dose_date.len() == 0,
        spec_parse_interval(m.medication_frequency) is Some,
    ensures
        spec_medication_due(m, now) == spec_is_time_due_at(m.time_of_day, now.hour, now.minute),
{
}

} // verus!

