//! The medication store: records, the database of active and archived
//! medications, its well-formedness invariant, and the lifecycle operations
//! (add/unarchive, remove/archive, take, untake, take-all, edit, reset),
//! each a pure mutation of an in-memory database value. Reading and writing
//! the backing file is the caller's concern; `resolve_load` decides what a
//! decoded (or undecodable) file means.

use vstd::prelude::*;
use crate::dates::{
    day_number, spec_format_date, spec_format_stamp, spec_parse_date, CivilDate, Moment,
    format_date, format_stamp, parse_date, day_number_of,
};
use crate::interval::{spec_parse_interval, parse_interval_to_days};
use crate::text::{eq_fold, lower, trim, trim_str};
use crate::time::{spec_is_time_due_at, spec_parse_time, is_time_due_at, parse_time};

verus! {

/// One recorded dose: when it was taken and what the dose was at that time.
pub struct DoseRecord {
    /// Wall-clock stamp in the `HH:MM:SS - YYYY/MM/DD` format.
    pub timestamp: String,
    /// The dose string at the time of taking, kept even if the medication's
    /// dose is edited later.
    pub dose: String,
}

/// The mathematical value of a `DoseRecord`.
#[verifier::ext_equal]
pub ghost struct DoseView {
    pub timestamp: Seq<char>,
    pub dose: Seq<char>,
}

impl View for DoseRecord {
    type V = DoseView;

    open spec fn view(&self) -> DoseView {
        DoseView { timestamp: self.timestamp@, dose: self.dose@ }
    }
}

/// A tracked medication.
pub struct Medication {
    /// Case-insensitively unique within the active list and within the
    /// archive.
    pub name: String,
    pub dose: String,
    /// Opaque until parsed by the time parser.
    pub time_of_day: String,
    /// Opaque until parsed by the interval parser.
    pub medication_frequency: String,
    /// Whether the current scheduled dose has been taken.
    pub taken: bool,
    /// Stamp of the last take; empty while not taken.
    pub taken_at: String,
    /// `YYYY-MM-DD` date of the last dose; empty when never dosed. Kept on
    /// untake and on reset: it anchors the recurrence interval.
    pub last_dose_date: String,
    pub notes: Option<String>,
    /// All recorded doses, oldest first; append-only except for the undo pop.
    pub history: Vec<DoseRecord>,
}

/// The mathematical value of a `Medication`.
#[verifier::ext_equal]
pub ghost struct MedView {
    pub name: Seq<char>,
    pub dose: Seq<char>,
    pub time_of_day: Seq<char>,
    pub medication_frequency: Seq<char>,
    pub taken: bool,
    pub taken_at: Seq<char>,
    pub last_dose_date: Seq<char>,
    pub notes: Option<Seq<char>>,
    pub history: Seq<DoseView>,
}

/// The view of an optional note.
pub open spec fn note_view(notes: Option<String>) -> Option<Seq<char>> {
    match notes {
        Some(n) => Some(n@),
        None => None,
    }
}

impl View for Medication {
    type V = MedView;

    open spec fn view(&self) -> MedView {
        MedView {
            name: self.name@,
            dose: self.dose@,
            time_of_day: self.time_of_day@,
            medication_frequency: self.medication_frequency@,
            taken: self.taken,
            taken_at: self.taken_at@,
            last_dose_date: self.last_dose_date@,
            notes: note_view(self.notes),
            history: Seq::new(self.history@.len(), |i: int| self.history@[i]@),
        }
    }
}

/// The views of a sequence of medications.
pub open spec fn med_views(s: Seq<Medication>) -> Seq<MedView> {
    Seq::new(s.len(), |i: int| s[i]@)
}

/// The whole store: active medications and the archive of discontinued ones.
pub struct MedicationDatabase {
    pub medications: Vec<Medication>,
    pub archived_medications: Vec<Medication>,
}

/// The mathematical value of a `MedicationDatabase`.
#[verifier::ext_equal]
pub ghost struct DbView {
    pub medications: Seq<MedView>,
    pub archived: Seq<MedView>,
}

impl View for MedicationDatabase {
    type V = DbView;

    open spec fn view(&self) -> DbView {
        DbView {
            medications: med_views(self.medications@),
            archived: med_views(self.archived_medications@),
        }
    }
}

/// No two medications in `meds` share a case-folded name.
pub open spec fn names_unique(meds: Seq<MedView>) -> bool {
    forall|i: int, j: int|
        0 <= i < j < meds.len() ==> lower(meds[i].name) != lower(meds[j].name)
}

impl MedView {
    /// The per-medication invariant: a taken medication records when it was
    /// taken and on which date it was last dosed; an untaken one records no
    /// take stamp.
    pub open spec fn wf(self) -> bool {
        &&& self.taken ==> self.taken_at.len() > 0 && self.last_dose_date.len() > 0
        &&& !self.taken ==> self.taken_at.len() == 0
    }
}

impl DbView {
    /// The store invariant: every medication well formed, names
    /// case-insensitively unique within the active list and within the
    /// archive, and no name active and archived at the same time.
    pub open spec fn wf(self) -> bool {
        &&& names_unique(self.medications)
        &&& names_unique(self.archived)
        &&& forall|i: int, j: int|
            0 <= i < self.medications.len() && 0 <= j < self.archived.len() ==> lower(
                self.medications[i].name,
            ) != lower(self.archived[j].name)
        &&& forall|i: int| 0 <= i < self.medications.len() ==> (#[trigger] self.medications[i]).wf()
        &&& forall|i: int| 0 <= i < self.archived.len() ==> (#[trigger] self.archived[i]).wf()
    }
}

/// An empty store.
pub open spec fn empty_db() -> DbView {
    DbView { medications: Seq::empty(), archived: Seq::empty() }
}

/// Index of the first medication whose case-folded name is `key`.
pub open spec fn find_name(meds: Seq<MedView>, key: Seq<char>) -> Option<int>
    decreases meds.len(),
{
    if meds.len() == 0 {
        None
    } else if lower(meds[0].name) == key {
        Some(0)
    } else {
        match find_name(meds.drop_first(), key) {
            Some(i) => Some(i + 1),
            None => None,
        }
    }
}

/// What `find_name` returns: the first match, or nothing when no name
/// matches.
pub proof fn lemma_find_name_props(meds: Seq<MedView>, key: Seq<char>)
    ensures
        match find_name(meds, key) {
            Some(i) => 0 <= i < meds.len() && lower(meds[i].name) == key && forall|k: int|
                0 <= k < i ==> lower(meds[k].name) != key,
            None => forall|k: int| 0 <= k < meds.len() ==> lower(meds[k].name) != key,
        },
    decreases meds.len(),
{
    if meds.len() > 0 && lower(meds[0].name) != key {
        let d = meds.drop_first();
        lemma_find_name_props(d, key);
        match find_name(meds, key) {
            Some(i) => {
                assert(find_name(d, key) == Some(i - 1));
                assert(d[i - 1] == meds[i]);
                assert forall|k: int| 0 <= k < i implies lower(meds[k].name) != key by {
                    if k > 0 {
                        assert(d[k - 1] == meds[k]);
                    }
                }
            },
            None => {
                assert forall|k: int| 0 <= k < meds.len() implies lower(meds[k].name) != key by {
                    if k > 0 {
                        assert(d[k - 1] == meds[k]);
                    }
                }
            },
        }
    }
}

/// A scan that finds the first match (or none) pins `find_name` down.
pub proof fn lemma_find_name_is(meds: Seq<MedView>, key: Seq<char>, i: int)
    requires
        0 <= i <= meds.len(),
        forall|k: int| 0 <= k < i ==> lower(meds[k].name) != key,
        i == meds.len() || lower(meds[i].name) == key,
    ensures
        find_name(meds, key) == if i == meds.len() {
            None
        } else {
            Some(i)
        },
    decreases i,
{
    if i == 0 {
        if meds.len() > 0 {
        }
    } else {
        assert(forall|k: int| 0 <= k < i - 1 ==> lower(meds.drop_first()[k].name) != key);
        lemma_find_name_is(meds.drop_first(), key, i - 1);
    }
}

/// First active or archived medication matching `name` case-insensitively.
pub fn find_medication(meds: &Vec<Medication>, name: &str) -> (r: Option<usize>)
    ensures
        match r {
            Some(i) => i < meds@.len() && find_name(med_views(meds@), lower(name@)) == Some(
                i as int,
            ),
            None => find_name(med_views(meds@), lower(name@)) is None,
        },
{
    let n = meds.len();
    for i in 0..n
        invariant
            n == meds@.len(),
            forall|k: int| 0 <= k < i ==> lower(med_views(meds@)[k].name) != lower(name@),
    {
        if eq_fold(meds[i].name.as_str(), name) {
            proof {
                lemma_find_name_is(med_views(meds@), lower(name@), i as int);
            }
            return Some(i);
        }
    }
    proof {
        lemma_find_name_is(med_views(meds@), lower(name@), n as int);
    }
    None
}

/// What adding reports.
#[derive(Clone, Copy, PartialEq, Eq, Structural, Debug)]
pub enum AddOutcome {
    /// The name was empty after trimming; nothing changed.
    EmptyName,
    /// The dose was empty after trimming; nothing changed.
    EmptyDose,
    /// The frequency was empty after trimming; nothing changed.
    EmptyInterval,
    /// The time of day did not parse; nothing changed.
    InvalidTime,
    /// An active medication already carries this name; nothing changed.
    AlreadyActive,
    /// An archived medication carried this name: it moved back to the active
    /// list with the new dose, time, frequency and notes, its history and
    /// last-dose date kept, and its taken state cleared.
    Unarchived,
    /// A fresh medication was appended to the active list.
    Added,
}

/// An archived medication brought back to the active list: new dose, time,
/// frequency and notes; name, history and last-dose date kept; not taken.
pub open spec fn spec_unarchived_med(
    m: MedView,
    dose: Seq<char>,
    time: Seq<char>,
    freq: Seq<char>,
    notes: Option<Seq<char>>,
) -> MedView {
    MedView {
        dose: dose,
        time_of_day: time,
        medication_frequency: freq,
        notes: notes,
        taken: false,
        taken_at: Seq::empty(),
        ..m
    }
}

/// A freshly added medication: never taken, no history.
pub open spec fn spec_fresh_med(
    name: Seq<char>,
    dose: Seq<char>,
    time: Seq<char>,
    freq: Seq<char>,
    notes: Option<Seq<char>>,
) -> MedView {
    MedView {
        name: name,
        dose: dose,
        time_of_day: time,
        medication_frequency: freq,
        taken: false,
        taken_at: Seq::empty(),
        last_dose_date: Seq::empty(),
        notes: notes,
        history: Seq::empty(),
    }
}

/// What `add_medication` does: validate the inputs, reject a name already
/// active, unarchive a matching archived medication, or append a fresh one.
pub open spec fn spec_add(
    db: DbView,
    name: Seq<char>,
    dose: Seq<char>,
    time: Seq<char>,
    freq: Seq<char>,
    notes: Option<Seq<char>>,
) -> (DbView, AddOutcome) {
    if trim(name).len() == 0 {
        (db, AddOutcome::EmptyName)
    } else if trim(dose).len() == 0 {
        (db, AddOutcome::EmptyDose)
    } else if trim(freq).len() == 0 {
        (db, AddOutcome::EmptyInterval)
    } else if spec_parse_time(time) is None {
        (db, AddOutcome::InvalidTime)
    } else if find_name(db.medications, lower(name)) is Some {
        (db, AddOutcome::AlreadyActive)
    } else {
        match find_name(db.archived, lower(name)) {
            Some(i) => (
                DbView {
                    medications: db.medications.push(
                        spec_unarchived_med(db.archived[i], dose, time, freq, notes),
                    ),
                    archived: db.archived.remove(i),
                },
                AddOutcome::Unarchived,
            ),
            None => (
                DbView {
                    medications: db.medications.push(
                        spec_fresh_med(name, dose, time, freq, notes),
                    ),
                    archived: db.archived,
                },
                AddOutcome::Added,
            ),
        }
    }
}

/// Adds a medication, or brings a matching archived one back to the active
/// list; validation failures and an already-active name leave the store
/// untouched.
pub fn add_medication(
    db: &mut MedicationDatabase,
    name: String,
    dose: String,
    time: String,
    interval: String,
    notes: Option<String>,
) -> (r: AddOutcome)
    ensures
        (final(db)@, r) == spec_add(
            old(db)@,
            name@,
            dose@,
            time@,
            interval@,
            note_view(notes),
        ),
        old(db)@.wf() ==> final(db)@.wf(),
{
    if trim_str(name.as_str()).unicode_len() == 0 {
        return AddOutcome::EmptyName;
    }
    if trim_str(dose.as_str()).unicode_len() == 0 {
        return AddOutcome::EmptyDose;
    }
    if trim_str(interval.as_str()).unicode_len() == 0 {
        return AddOutcome::EmptyInterval;
    }
    if parse_time(time.as_str()).is_none() {
        return AddOutcome::InvalidTime;
    }
    if find_medication(&db.medications, name.as_str()).is_some() {
        return AddOutcome::AlreadyActive;
    }
    match find_medication(&db.archived_medications, name.as_str()) {
        Some(i) => {
            let mut med = db.archived_medications.remove(i);
            med.dose = dose;
            med.time_of_day = time;
            med.medication_frequency = interval;
            med.notes = notes;
            med.taken = false;
            med.taken_at = String::new();
            db.medications.push(med);
            proof {
                assert(db@.medications =~= old(db)@.medications.push(
                    spec_unarchived_med(
                        old(db)@.archived[i as int],
                        dose@,
                        time@,
                        interval@,
                        note_view(notes),
                    ),
                ));
                assert(db@.archived =~= old(db)@.archived.remove(i as int));
                assert(db@ =~= spec_add(
                    old(db)@,
                    name@,
                    dose@,
                    time@,
                    interval@,
                    note_view(notes),
                ).0);
                if old(db)@.wf() {
                    crate::laws::lemma_add_preserves_wf(
                        old(db)@,
                        name@,
                        dose@,
                        time@,
                        interval@,
                        note_view(notes),
                    );
                }
            }
            AddOutcome::Unarchived
        },
        None => {
            let med = Medication {
                name: name,
                dose: dose,
                time_of_day: time,
                medication_frequency: interval,
                taken: false,
                taken_at: String::new(),
                last_dose_date: String::new(),
                notes: notes,
                history: Vec::new(),
            };
            let ghost name_v = med.name@;
            db.medications.push(med);
            proof {
                assert(db@.medications =~~= old(db)@.medications.push(
                    spec_fresh_med(name_v, dose@, time@, interval@, note_view(notes)),
                ));
                assert(db@ =~~= spec_add(
                    old(db)@,
                    name_v,
                    dose@,
                    time@,
                    interval@,
                    note_view(notes),
                ).0);
                if old(db)@.wf() {
                    crate::laws::lemma_add_preserves_wf(
                        old(db)@,
                        name_v,
                        dose@,
                        time@,
                        interval@,
                        note_view(notes),
                    );
                }
            }
            AddOutcome::Added
        },
    }
}

/// What removing reports.
#[derive(Clone, Copy, PartialEq, Eq, Structural, Debug)]
pub enum RemoveOutcome {
    /// The medication moved, with its whole history, to the archive.
    Removed,
    /// No active medication carries this name; nothing changed.
    NotFound,
}

/// The medications whose case-folded name is not `key`, in order.
pub open spec fn keep_others(meds: Seq<MedView>, key: Seq<char>) -> Seq<MedView>
    decreases meds.len(),
{
    if meds.len() == 0 {
        Seq::empty()
    } else {
        let pre = keep_others(meds.drop_last(), key);
        if lower(meds.last().name) == key {
            pre
        } else {
            pre.push(meds.last())
        }
    }
}

/// Index of the last medication whose case-folded name is `key`.
pub open spec fn find_last(meds: Seq<MedView>, key: Seq<char>) -> Option<int>
    decreases meds.len(),
{
    if meds.len() == 0 {
        None
    } else if lower(meds.last().name) == key {
        Some(meds.len() - 1)
    } else {
        find_last(meds.drop_last(), key)
    }
}

/// What `remove_medication` does: drop every active medication matching the
/// name and archive the last of them, or report that none matched.
pub open spec fn spec_remove(db: DbView, name: Seq<char>) -> (DbView, RemoveOutcome) {
    let key = lower(name);
    match find_last(db.medications, key) {
        Some(i) => (
            DbView {
                medications: keep_others(db.medications, key),
                archived: db.archived.push(db.medications[i]),
            },
            RemoveOutcome::Removed,
        ),
        None => (db, RemoveOutcome::NotFound),
    }
}

/// Where nothing matches, nothing is dropped.
pub proof fn lemma_keep_others_all(meds: Seq<MedView>, key: Seq<char>)
    requires
        find_last(meds, key) is None,
    ensures
        keep_others(meds, key) == meds,
    decreases meds.len(),
{
    if meds.len() > 0 {
        lemma_keep_others_all(meds.drop_last(), key);
        assert(keep_others(meds, key) =~= meds);
    } else {
        assert(keep_others(meds, key) =~= meds);
    }
}

/// Moves a medication from the active list to the archive, history and all;
/// archiving is the only way a medication leaves the active list, and it is
/// reversible through `add_medication`.
pub fn remove_medication(db: &mut MedicationDatabase, name: &str) -> (r: RemoveOutcome)
    ensures
        (final(db)@, r) == spec_remove(old(db)@, name@),
        old(db)@.wf() ==> final(db)@.wf(),
{
    let ghost orig = old(db)@.medications;
    let ghost key = lower(name@);
    let mut kept: Vec<Medication> = Vec::new();
    let mut found: Option<Medication> = None;
    let ghost mut processed: int = 0;
    while db.medications.len() > 0
        invariant
            orig == old(db)@.medications,
            key == lower(name@),
            0 <= processed <= orig.len(),
            med_views(db.medications@) =~= orig.skip(processed),
            med_views(kept@) =~= keep_others(orig.take(processed), key),
            match find_last(orig.take(processed), key) {
                Some(j) => found matches Some(m) && 0 <= j < orig.len() && m@ == orig[j],
                None => found is None,
            },
            db.archived_medications@ == old(db).archived_medications@,
        decreases db.medications.len(),
    {
        let ghost pre = db.medications@;
        let ghost pre_kept = kept@;
        proof {
            assert(med_views(pre).len() == pre.len());
            assert(pre.len() > 0);
            assert(orig.skip(processed).len() == orig.len() - processed);
            assert(processed < orig.len());
            assert(med_views(pre)[0] == pre[0]@);
            assert(orig.skip(processed)[0] == orig[processed]);
        }
        let m = db.medications.remove(0);
        proof {
            assert(m@ == orig[processed]);
            assert(orig.take(processed + 1).drop_last() =~= orig.take(processed));
            assert(orig.take(processed + 1).last() == orig[processed]);
        }
        let matches_name = eq_fold(m.name.as_str(), name);
        proof {
            assert(m@.name == m.name@);
            assert(orig.take(processed + 1).len() == processed + 1);
            assert(orig.take(processed + 1).last() == m@);
            assert(matches_name == (lower(orig.take(processed + 1).last().name) == key));
        }
        if matches_name {
            found = Some(m);
            proof {
                assert(find_last(orig.take(processed + 1), key) == Some(processed));
                assert(keep_others(orig.take(processed + 1), key) == keep_others(
                    orig.take(processed),
                    key,
                ));
            }
        } else {
            kept.push(m);
            proof {
                assert(keep_others(orig.take(processed + 1), key) == keep_others(
                    orig.take(processed),
                    key,
                ).push(orig[processed]));
                assert forall|k: int|
                    0 <= k < kept@.len() implies med_views(kept@)[k] == keep_others(
                    orig.take(processed + 1),
                    key,
                )[k] by {
                    if k < pre_kept.len() {
                        assert(kept@[k] == pre_kept[k]);
                        assert(med_views(pre_kept)[k] == pre_kept[k]@);
                    }
                }
                assert(med_views(kept@) =~= keep_others(orig.take(processed + 1), key));
                assert(find_last(orig.take(processed + 1), key) == find_last(
                    orig.take(processed),
                    key,
                ));
            }
        }
        proof {
            assert forall|k: int|
                0 <= k < db.medications@.len() implies med_views(db.medications@)[k] == orig.skip(
                processed + 1,
            )[k] by {
                assert(db.medications@[k] == pre[k + 1]);
                assert(med_views(pre)[k + 1] == pre[k + 1]@);
                assert(orig.skip(processed)[k + 1] == orig[processed + 1 + k]);
                assert(orig.skip(processed + 1)[k] == orig[processed + 1 + k]);
            }
            processed = processed + 1;
            assert(med_views(db.medications@) =~= orig.skip(processed));
        }
    }
    proof {
        assert(orig.take(processed) =~= orig);
    }
    db.medications = kept;
    match found {
        Some(m) => {
            db.archived_medications.push(m);
            proof {
                assert(db@.archived =~= old(db)@.archived.push(m@));
                assert(db@ =~~= spec_remove(old(db)@, name@).0);
                if old(db)@.wf() {
                    crate::laws::lemma_remove_preserves_wf(old(db)@, name@);
                }
            }
            RemoveOutcome::Removed
        },
        None => {
            proof {
                lemma_keep_others_all(orig, key);
                assert(db@ =~~= old(db)@);
            }
            RemoveOutcome::NotFound
        },
    }
}

/// What taking reports.
#[derive(Clone, Copy, PartialEq, Eq, Structural, Debug)]
pub enum TakeOutcome {
    /// Marked taken; a dose record was appended.
    Taken,
    /// Already marked taken; nothing changed.
    AlreadyTaken,
    /// The name is archived, not active; nothing changed.
    IsArchived,
    /// The name is neither active nor archived; nothing changed.
    NotFound,
}

/// A medication marked taken at `now`: the take stamp and last-dose date are
/// set and one dose record, with the current dose, is appended.
pub open spec fn spec_take_update(m: MedView, now: Moment) -> MedView {
    MedView {
        taken: true,
        taken_at: spec_format_stamp(now),
        last_dose_date: spec_format_date(now.date),
        history: m.history.push(DoseView { timestamp: spec_format_stamp(now), dose: m.dose }),
        ..m
    }
}

/// What `take_medication` does: mark the first matching untaken active
/// medication as taken at `now`, and change nothing in every other case.
pub open spec fn spec_take(db: DbView, name: Seq<char>, now: Moment) -> (DbView, TakeOutcome) {
    match find_name(db.medications, lower(name)) {
        Some(i) => if db.medications[i].taken {
            (db, TakeOutcome::AlreadyTaken)
        } else {
            (
                DbView {
                    medications: db.medications.update(i, spec_take_update(db.medications[i], now)),
                    ..db
                },
                TakeOutcome::Taken,
            )
        },
        None => if find_name(db.archived, lower(name)) is Some {
            (db, TakeOutcome::IsArchived)
        } else {
            (db, TakeOutcome::NotFound)
        },
    }
}

/// Marks a medication as taken at `now` and records the dose in its history.
pub fn take_medication(db: &mut MedicationDatabase, name: &str, now: &Moment) -> (r: TakeOutcome)
    requires
        now.wf(),
    ensures
        (final(db)@, r) == spec_take(old(db)@, name@, *now),
        old(db)@.wf() ==> final(db)@.wf(),
{
    match find_medication(&db.medications, name) {
        Some(i) => {
            if db.medications[i].taken {
                proof {
                    assert(db@ =~~= old(db)@);
                }
                return TakeOutcome::AlreadyTaken;
            }
            let mut med = db.medications.remove(i);
            let stamp = format_stamp(now);
            med.taken = true;
            med.taken_at = stamp.clone();
            med.last_dose_date = format_date(&now.date);
            let snapshot = med.dose.clone();
            med.history.push(DoseRecord { timestamp: stamp, dose: snapshot });
            db.medications.insert(i, med);
            proof {
                assert(db@.medications =~~= old(db)@.medications.update(
                    i as int,
                    spec_take_update(old(db)@.medications[i as int], *now),
                ));
                assert(db@ =~~= spec_take(old(db)@, name@, *now).0);
                if old(db)@.wf() {
                    crate::laws::lemma_take_preserves_wf(old(db)@, name@, *now);
                }
            }
            TakeOutcome::Taken
        },
        None => {
            if find_medication(&db.archived_medications, name).is_some() {
                TakeOutcome::IsArchived
            } else {
                TakeOutcome::NotFound
            }
        },
    }
}

/// What untaking reports.
#[derive(Clone, Copy, PartialEq, Eq, Structural, Debug)]
pub enum UntakeOutcome {
    /// Unmarked; the most recent dose record was removed.
    Untaken,
    /// Not currently marked taken; nothing changed.
    NotTaken,
    /// The name is archived, not active; nothing changed.
    IsArchived,
    /// The name is neither active nor archived; nothing changed.
    NotFound,
}

/// A medication unmarked: the take stamp is cleared and the most recent dose
/// record removed; the last-dose date stays, anchoring the interval.
pub open spec fn spec_untake_update(m: MedView) -> MedView {
    MedView {
        taken: false,
        taken_at: Seq::empty(),
        history: if m.history.len() > 0 {
            m.history.drop_last()
        } else {
            m.history
        },
        ..m
    }
}

/// What `untake_medication` does: unmark the first matching taken active
/// medication, and change nothing in every other case.
pub open spec fn spec_untake(db: DbView, name: Seq<char>) -> (DbView, UntakeOutcome) {
    match find_name(db.medications, lower(name)) {
        Some(i) => if !db.medications[i].taken {
            (db, UntakeOutcome::NotTaken)
        } else {
            (
                DbView {
                    medications: db.medications.update(i, spec_untake_update(db.medications[i])),
                    ..db
                },
                UntakeOutcome::Untaken,
            )
        },
        None => if find_name(db.archived, lower(name)) is Some {
            (db, UntakeOutcome::IsArchived)
        } else {
            (db, UntakeOutcome::NotFound)
        },
    }
}

/// Undoes a take: clears the taken state and pops the most recent dose
/// record, keeping `last_dose_date` for interval tracking.
pub fn untake_medication(db: &mut MedicationDatabase, name: &str) -> (r: UntakeOutcome)
    ensures
        (final(db)@, r) == spec_untake(old(db)@, name@),
        old(db)@.wf() ==> final(db)@.wf(),
{
    match find_medication(&db.medications, name) {
        Some(i) => {
            if !db.medications[i].taken {
                proof {
                    assert(db@ =~~= old(db)@);
                }
                return UntakeOutcome::NotTaken;
            }
            let mut med = db.medications.remove(i);
            med.taken = false;
            med.taken_at = String::new();
            if med.history.len() > 0 {
                med.history.pop();
            }
            db.medications.insert(i, med);
            proof {
                assert(db@.medications =~~= old(db)@.medications.update(
                    i as int,
                    spec_untake_update(old(db)@.medications[i as int]),
                ));
                assert(db@ =~~= spec_untake(old(db)@, name@).0);
                if old(db)@.wf() {
                    crate::laws::lemma_untake_preserves_wf(old(db)@, name@);
                }
            }
            UntakeOutcome::Untaken
        },
        None => {
            if find_medication(&db.archived_medications, name).is_some() {
                UntakeOutcome::IsArchived
            } else {
                UntakeOutcome::NotFound
            }
        },
    }
}

/// Every untaken active medication marked taken at `now`; already-taken ones
/// are left as they are.
pub open spec fn spec_take_all(meds: Seq<MedView>, now: Moment) -> Seq<MedView> {
    Seq::new(
        meds.len(),
        |i: int|
            if meds[i].taken {
                meds[i]
            } else {
                spec_take_update(meds[i], now)
            },
    )
}

/// Marks every active medication as taken at `now`, each independently;
/// medications already taken are left unchanged.
pub fn take_all_medications(db: &mut MedicationDatabase, now: &Moment)
    requires
        now.wf(),
    ensures
        final(db)@.medications == spec_take_all(old(db)@.medications, *now),
        final(db)@.archived == old(db)@.archived,
        old(db)@.wf() ==> final(db)@.wf(),
{
    let n = db.medications.len();
    for i in 0..n
        invariant
            now.wf(),
            n == db.medications@.len(),
            n == old(db).medications@.len(),
            forall|k: int|
                i <= k < n ==> db.medications@[k] == old(db).medications@[k],
            forall|k: int|
                0 <= k < i ==> med_views(db.medications@)[k] == spec_take_all(
                    old(db)@.medications,
                    *now,
                )[k],
            db.archived_medications@ == old(db).archived_medications@,
    {
        let ghost pre = db.medications@;
        if !db.medications[i].taken {
            let mut med = db.medications.remove(i);
            let stamp = format_stamp(now);
            med.taken = true;
            med.taken_at = stamp.clone();
            med.last_dose_date = format_date(&now.date);
            let snapshot = med.dose.clone();
            med.history.push(DoseRecord { timestamp: stamp, dose: snapshot });
            db.medications.insert(i, med);
            proof {
                assert(db.medications@ =~= pre.update(i as int, db.medications@[i as int]));
                assert(med_views(db.medications@)[i as int] =~~= spec_take_all(
                    old(db)@.medications,
                    *now,
                )[i as int]);
            }
        }
        proof {
            assert forall|k: int|
                0 <= k < i + 1 implies med_views(db.medications@)[k] == spec_take_all(
                old(db)@.medications,
                *now,
            )[k] by {
                if k < i {
                    assert(db.medications@[k] == pre[k]);
                    assert(med_views(pre)[k] == pre[k]@);
                }
            }
        }
    }
    proof {
        assert(med_views(db.medications@) =~= spec_take_all(old(db)@.medications, *now));
        if old(db)@.wf() {
            crate::laws::lemma_take_all_preserves_wf(old(db)@, *now);
            assert(db@ =~~= (DbView {
                medications: spec_take_all(old(db)@.medications, *now),
                ..old(db)@
            }));
        }
    }
}

/// What editing reports.
#[derive(Clone, Copy, PartialEq, Eq, Structural, Debug)]
pub enum EditOutcome {
    /// The new time of day did not parse; nothing changed.
    InvalidTime,
    /// The new dose was empty after trimming; nothing changed.
    EmptyDose,
    /// The new frequency was empty after trimming; nothing changed.
    EmptyFrequency,
    /// No field was supplied; nothing changed.
    NoChanges,
    /// The supplied fields were applied.
    Edited,
    /// No active medication carries this name; nothing changed.
    NotFound,
}

/// A medication with the supplied fields applied: an absent field keeps its
/// value, and an empty new notes string clears the notes.
pub open spec fn spec_edit_update(
    m: MedView,
    new_dose: Option<Seq<char>>,
    new_time: Option<Seq<char>>,
    new_freq: Option<Seq<char>>,
    new_notes: Option<Seq<char>>,
) -> MedView {
    MedView {
        dose: match new_dose {
            Some(d) => d,
            None => m.dose,
        },
        time_of_day: match new_time {
            Some(t) => t,
            None => m.time_of_day,
        },
        medication_frequency: match new_freq {
            Some(f) => f,
            None => m.medication_frequency,
        },
        notes: match new_notes {
            Some(x) => if x.len() == 0 {
                None
            } else {
                Some(x)
            },
            None => m.notes,
        },
        ..m
    }
}

/// What `edit_medication` does: validate the supplied fields, then apply them
/// to the first matching active medication; invalid input, an unknown name,
/// or no supplied field leaves the store untouched.
pub open spec fn spec_edit(
    db: DbView,
    name: Seq<char>,
    new_dose: Option<Seq<char>>,
    new_time: Option<Seq<char>>,
    new_freq: Option<Seq<char>>,
    new_notes: Option<Seq<char>>,
) -> (DbView, EditOutcome) {
    if new_time matches Some(t) && spec_parse_time(t) is None {
        (db, EditOutcome::InvalidTime)
    } else if new_dose matches Some(d) && trim(d).len() == 0 {
        (db, EditOutcome::EmptyDose)
    } else if new_freq matches Some(f) && trim(f).len() == 0 {
        (db, EditOutcome::EmptyFrequency)
    } else {
        match find_name(db.medications, lower(name)) {
            Some(i) => if new_dose is None && new_time is None && new_freq is None
                && new_notes is None {
                (db, EditOutcome::NoChanges)
            } else {
                (
                    DbView {
                        medications: db.medications.update(
                            i,
                            spec_edit_update(
                                db.medications[i],
                                new_dose,
                                new_time,
                                new_freq,
                                new_notes,
                            ),
                        ),
                        ..db
                    },
                    EditOutcome::Edited,
                )
            },
            None => (db, EditOutcome::NotFound),
        }
    }
}

/// Edits the supplied fields of a medication, validating them first; an empty
/// new notes string clears the notes.
pub fn edit_medication(
    db: &mut MedicationDatabase,
    name: &str,
    new_dose: Option<String>,
    new_time: Option<String>,
    new_freq: Option<String>,
    new_notes: Option<String>,
) -> (r: EditOutcome)
    ensures
        (final(db)@, r) == spec_edit(
            old(db)@,
            name@,
            note_view(new_dose),
            note_view(new_time),
            note_view(new_freq),
            note_view(new_notes),
        ),
        old(db)@.wf() ==> final(db)@.wf(),
{
    match &new_time {
        Some(t) => {
            if parse_time(t.as_str()).is_none() {
                return EditOutcome::InvalidTime;
            }
        },
        None => {},
    }
    match &new_dose {
        Some(d) => {
            if trim_str(d.as_str()).unicode_len() == 0 {
                return EditOutcome::EmptyDose;
            }
        },
        None => {},
    }
    match &new_freq {
        Some(f) => {
            if trim_str(f.as_str()).unicode_len() == 0 {
                return EditOutcome::EmptyFrequency;
            }
        },
        None => {},
    }
    match find_medication(&db.medications, name) {
        Some(i) => {
            if new_dose.is_none() && new_time.is_none() && new_freq.is_none()
                && new_notes.is_none() {
                return EditOutcome::NoChanges;
            }
            let mut med = db.medications.remove(i);
            match new_dose {
                Some(d) => {
                    med.dose = d;
                },
                None => {},
            }
            match new_time {
                Some(t) => {
                    med.time_of_day = t;
                },
                None => {},
            }
            match new_freq {
                Some(f) => {
                    med.medication_frequency = f;
                },
                None => {},
            }
            match new_notes {
                Some(x) => {
                    if x.as_str().unicode_len() == 0 {
                        med.notes = None;
                    } else {
                        med.notes = Some(x);
                    }
                },
                None => {},
            }
            db.medications.insert(i, med);
            proof {
                assert(db@ =~~= spec_edit(
                    old(db)@,
                    name@,
                    note_view(new_dose),
                    note_view(new_time),
                    note_view(new_freq),
                    note_view(new_notes),
                ).0);
                if old(db)@.wf() {
                    crate::laws::lemma_edit_preserves_wf(
                        old(db)@,
                        name@,
                        note_view(new_dose),
                        note_view(new_time),
                        note_view(new_freq),
                        note_view(new_notes),
                    );
                }
            }
            EditOutcome::Edited
        },
        None => EditOutcome::NotFound,
    }
}

/// Whether the recurrence interval since the last dose has elapsed. An
/// as-needed medication has no interval and is never blocked; a medication
/// never dosed, or one whose last-dose date does not parse, counts as due
/// (fail-safe: over-remind rather than stay silent).
pub open spec fn spec_due_by_interval(last: Seq<char>, freq: Seq<char>, today: CivilDate) -> bool {
    match spec_parse_interval(freq) {
        None => true,
        Some(interval) => last.len() == 0 || match spec_parse_date(last) {
            None => true,
            Some(d0) => day_number(today.year as int, today.month as int, today.day as int)
                - day_number(d0.year as int, d0.month as int, d0.day as int) >= interval,
        },
    }
}

/// Interval check matching `spec_due_by_interval`.
pub fn is_medication_due_by_interval(
    last_dose_date: &str,
    interval_str: &str,
    today: &CivilDate,
) -> (r: bool)
    requires
        today.wf(),
    ensures
        r == spec_due_by_interval(last_dose_date@, interval_str@, *today),
{
    let interval = match parse_interval_to_days(interval_str) {
        Some(days) => days,
        None => {
            return true;
        },
    };
    if last_dose_date.unicode_len() == 0 {
        return true;
    }
    let last = match parse_date(last_dose_date) {
        Some(d) => d,
        None => {
            return true;
        },
    };
    proof {
        crate::dates::lemma_parse_date_wf(last_dose_date@);
    }
    let today_n = day_number_of(today);
    let last_n = day_number_of(&last);
    today_n - last_n >= interval as i64
}

/// Whether a scheduled medication is due at `now`: untaken, at or past its
/// time of day, and past its recurrence interval. An as-needed medication is
/// never in a due list: it has no schedule.
pub open spec fn spec_medication_due(m: MedView, now: Moment) -> bool {
    &&& !m.taken
    &&& spec_is_time_due_at(m.time_of_day, now.hour, now.minute)
    &&& spec_parse_interval(m.medication_frequency) is Some
    &&& spec_due_by_interval(m.last_dose_date, m.medication_frequency, now.date)
}

/// Due check matching `spec_medication_due`.
pub fn is_medication_due(med: &Medication, now: &Moment) -> (r: bool)
    requires
        now.wf(),
    ensures
        r == spec_medication_due(med@, *now),
{
    if med.taken {
        return false;
    }
    if !is_time_due_at(med.time_of_day.as_str(), now.hour, now.minute) {
        return false;
    }
    if parse_interval_to_days(med.medication_frequency.as_str()).is_none() {
        return false;
    }
    is_medication_due_by_interval(
        med.last_dose_date.as_str(),
        med.medication_frequency.as_str(),
        &now.date,
    )
}

/// Whether a nightly reset is owed: the medication is taken, has a recurrence
/// interval (as-needed medications never auto-reset), and the interval has
/// elapsed since the last dose — or the last-dose date is missing or
/// unreadable, which fail-safe counts as elapsed.
pub open spec fn spec_reset_due(m: MedView, today: CivilDate) -> bool {
    &&& m.taken
    &&& spec_parse_interval(m.medication_frequency) is Some
    &&& spec_due_by_interval(m.last_dose_date, m.medication_frequency, today)
}

/// A medication after the nightly reset: the taken state and stamp are
/// cleared where the reset is owed; `last_dose_date` and the history stay.
pub open spec fn spec_reset_med(m: MedView, today: CivilDate) -> MedView {
    if spec_reset_due(m, today) {
        MedView { taken: false, taken_at: Seq::empty(), ..m }
    } else {
        m
    }
}

/// Every active medication after the nightly reset.
pub open spec fn spec_reset_all(meds: Seq<MedView>, today: CivilDate) -> Seq<MedView> {
    Seq::new(meds.len(), |i: int| spec_reset_med(meds[i], today))
}

/// Clears the taken state of every active medication whose recurrence
/// interval has elapsed; returns whether anything changed, so the caller
/// knows whether the store must be persisted.
pub fn reset_all_medications(db: &mut MedicationDatabase, today: &CivilDate) -> (changed: bool)
    requires
        today.wf(),
    ensures
        final(db)@.medications == spec_reset_all(old(db)@.medications, *today),
        final(db)@.archived == old(db)@.archived,
        changed == exists|k: int|
            0 <= k < old(db)@.medications.len() && spec_reset_due(
                #[trigger] old(db)@.medications[k],
                *today,
            ),
        old(db)@.wf() ==> final(db)@.wf(),
{
    let n = db.medications.len();
    let mut changed = false;
    for i in 0..n
        invariant
            today.wf(),
            n == db.medications@.len(),
            n == old(db).medications@.len(),
            forall|k: int|
                i <= k < n ==> db.medications@[k] == old(db).medications@[k],
            forall|k: int|
                0 <= k < i ==> med_views(db.medications@)[k] == spec_reset_all(
                    old(db)@.medications,
                    *today,
                )[k],
            db.archived_medications@ == old(db).archived_medications@,
            changed == exists|k: int|
                0 <= k < i && spec_reset_due(#[trigger] old(db)@.medications[k], *today),
    {
        let ghost pre = db.medications@;
        let due = if db.medications[i].taken {
            if parse_interval_to_days(db.medications[i].medication_frequency.as_str()).is_some() {
                is_medication_due_by_interval(
                    db.medications[i].last_dose_date.as_str(),
                    db.medications[i].medication_frequency.as_str(),
                    today,
                )
            } else {
                false
            }
        } else {
            false
        };
        proof {
            assert(due == spec_reset_due(old(db)@.medications[i as int], *today));
        }
        if due {
            let mut med = db.medications.remove(i);
            med.taken = false;
            med.taken_at = String::new();
            db.medications.insert(i, med);
            changed = true;
            proof {
                assert(db.medications@ =~= pre.update(i as int, db.medications@[i as int]));
                assert(med_views(db.medications@)[i as int] =~~= spec_reset_all(
                    old(db)@.medications,
                    *today,
                )[i as int]);
            }
        } else {
            proof {
                assert(med_views(db.medications@)[i as int] =~~= spec_reset_all(
                    old(db)@.medications,
                    *today,
                )[i as int]);
            }
        }
        proof {
            assert forall|k: int|
                0 <= k < i + 1 implies med_views(db.medications@)[k] == spec_reset_all(
                old(db)@.medications,
                *today,
            )[k] by {
                if k < i {
                    assert(db.medications@[k] == pre[k]);
                    assert(med_views(pre)[k] == pre[k]@);
                }
            }
        }
    }
    proof {
        assert(med_views(db.medications@) =~= spec_reset_all(old(db)@.medications, *today));
        if old(db)@.wf() {
            crate::laws::lemma_reset_all_preserves_wf(old(db)@, *today);
            assert(db@ =~~= (DbView {
                medications: spec_reset_all(old(db)@.medications, *today),
                ..old(db)@
            }));
        }
    }
    changed
}

/// How the backing file decoded. The caller reads the file and tries the
/// current schema first, then the legacy bare-list schema.
pub enum DecodeOutcome {
    /// No backing file exists yet.
    Missing,
    /// The file exists but could not be read.
    Unreadable,
    /// The file decoded in the current schema.
    Current(MedicationDatabase),
    /// The file decoded in the legacy schema: a bare list of medications
    /// with no archive.
    Legacy(Vec<Medication>),
    /// The file decoded in neither schema.
    Corrupt,
}

/// What must happen to the backing file after a load.
#[derive(Clone, Copy, PartialEq, Eq, Structural, Debug)]
pub enum LoadAction {
    /// Leave the file as it is.
    Keep,
    /// Persist the migrated database immediately.
    SaveMigrated,
    /// Copy the undecodable file to a `.corrupted` sibling, preserving the
    /// original bytes, before going on with an empty store.
    BackupCorrupt,
}

/// What a decoded (or undecodable) backing file means: a missing or
/// unreadable file degrades to an empty store; a legacy file is wrapped and
/// owed an immediate save; a corrupted file is owed a backup and degrades to
/// an empty store. No outcome loses data without a backup.
pub fn resolve_load(outcome: DecodeOutcome) -> (r: (MedicationDatabase, LoadAction))
    ensures
        match outcome {
            DecodeOutcome::Missing => r.0@ == empty_db() && r.0@.wf() && r.1 == LoadAction::Keep,
            DecodeOutcome::Unreadable => r.0@ == empty_db() && r.0@.wf() && r.1
                == LoadAction::Keep,
            DecodeOutcome::Current(db) => r.0 == db && r.1 == LoadAction::Keep,
            DecodeOutcome::Legacy(meds) => r.0@.medications == med_views(meds@)
                && r.0@.archived.len() == 0 && r.1 == LoadAction::SaveMigrated,
            DecodeOutcome::Corrupt => r.0@ == empty_db() && r.0@.wf() && r.1
                == LoadAction::BackupCorrupt,
        },
{
    match outcome {
        DecodeOutcome::Missing => {
            let db = MedicationDatabase { medications: Vec::new(), archived_medications: Vec::new() };
            proof {
                assert(db@ =~~= empty_db());
            }
            (db, LoadAction::Keep)
        },
        DecodeOutcome::Unreadable => {
            let db = MedicationDatabase { medications: Vec::new(), archived_medications: Vec::new() };
            proof {
                assert(db@ =~~= empty_db());
            }
            (db, LoadAction::Keep)
        },
        DecodeOutcome::Current(db) => (db, LoadAction::Keep),
        DecodeOutcome::Legacy(meds) => {
            let db = MedicationDatabase { medications: meds, archived_medications: Vec::new() };
            (db, LoadAction::SaveMigrated)
        },
        DecodeOutcome::Corrupt => {
            let db = MedicationDatabase { medications: Vec::new(), archived_medications: Vec::new() };
            proof {
                assert(db@ =~~= empty_db());
            }
            (db, LoadAction::BackupCorrupt)
        },
    }
}

/// The active medications alone, for callers that do not touch the archive.
pub fn load_medications(db: MedicationDatabase) -> (r: Vec<Medication>)
    ensures
        r == db.medications,
{
    db.medications
}

/// Replaces the active medications while preserving the archive.
pub fn save_medications(db: &mut MedicationDatabase, meds: Vec<Medication>)
    ensures
        final(db).medications == meds,
        final(db).archived_medications == old(db).archived_medications,
{
    db.medications = meds;
}

} // verus!
