use pharm::database::{
    add_medication, edit_medication, is_medication_due, is_medication_due_by_interval,
    load_medications, remove_medication, reset_all_medications, resolve_load, save_medications,
    take_all_medications, take_medication, untake_medication, AddOutcome, DecodeOutcome,
    EditOutcome, LoadAction, Medication, MedicationDatabase, RemoveOutcome, TakeOutcome,
    UntakeOutcome,
};
use pharm::dates::{CivilDate, Moment};

fn empty_db() -> MedicationDatabase {
    MedicationDatabase { medications: Vec::new(), archived_medications: Vec::new() }
}

fn moment(year: u32, month: u32, day: u32, hour: u32, minute: u32, second: u32) -> Moment {
    Moment { date: CivilDate { year, month, day }, hour, minute, second }
}

fn add_simple(db: &mut MedicationDatabase, name: &str, freq: &str, time: &str) -> AddOutcome {
    add_medication(
        db,
        name.to_string(),
        "500mg".to_string(),
        time.to_string(),
        freq.to_string(),
        None,
    )
}

#[test]
fn add_validation_and_duplicates() {
    let mut db = empty_db();
    assert_eq!(
        add_medication(
            &mut db,
            "  ".to_string(),
            "1".to_string(),
            "8:00".to_string(),
            "daily".to_string(),
            None
        ),
        AddOutcome::EmptyName
    );
    assert_eq!(
        add_medication(
            &mut db,
            "A".to_string(),
            " ".to_string(),
            "8:00".to_string(),
            "daily".to_string(),
            None
        ),
        AddOutcome::EmptyDose
    );
    assert_eq!(
        add_medication(
            &mut db,
            "A".to_string(),
            "1".to_string(),
            "8:00".to_string(),
            "".to_string(),
            None
        ),
        AddOutcome::EmptyInterval
    );
    assert_eq!(
        add_medication(
            &mut db,
            "A".to_string(),
            "1".to_string(),
            "25:00".to_string(),
            "daily".to_string(),
            None
        ),
        AddOutcome::InvalidTime
    );
    assert_eq!(db.medications.len(), 0);

    // case-insensitive uniqueness: "Aspirin" then "aspirin" must fail
    assert_eq!(add_simple(&mut db, "Aspirin", "daily", "8:00"), AddOutcome::Added);
    assert_eq!(add_simple(&mut db, "aspirin", "daily", "9:00"), AddOutcome::AlreadyActive);
    assert_eq!(db.medications.len(), 1);
    assert_eq!(db.medications[0].name, "Aspirin");
    assert_eq!(db.medications[0].time_of_day, "8:00");
}

#[test]
fn archive_round_trip_preserves_history() {
    let mut db = empty_db();
    assert_eq!(add_simple(&mut db, "Aspirin", "daily", "8:00"), AddOutcome::Added);
    let now = moment(2025, 1, 1, 8, 5, 0);
    assert_eq!(take_medication(&mut db, "Aspirin", &now), TakeOutcome::Taken);
    assert_eq!(db.medications[0].history.len(), 1);
    assert_eq!(db.medications[0].last_dose_date, "2025-01-01");

    // remove: moved wholesale into the archive
    assert_eq!(remove_medication(&mut db, "aspirin"), RemoveOutcome::Removed);
    assert_eq!(db.medications.len(), 0);
    assert_eq!(db.archived_medications.len(), 1);
    assert_eq!(db.archived_medications[0].history.len(), 1);

    // add again: unarchived with new fields, history and last dose kept
    let r = add_medication(
        &mut db,
        "ASPIRIN".to_string(),
        "250mg".to_string(),
        "noon".to_string(),
        "weekly".to_string(),
        Some("with food".to_string()),
    );
    assert_eq!(r, AddOutcome::Unarchived);
    assert_eq!(db.archived_medications.len(), 0);
    assert_eq!(db.medications.len(), 1);
    let m = &db.medications[0];
    assert_eq!(m.name, "Aspirin"); // the original name travels with the record
    assert_eq!(m.dose, "250mg");
    assert_eq!(m.time_of_day, "noon");
    assert_eq!(m.medication_frequency, "weekly");
    assert_eq!(m.notes, Some("with food".to_string()));
    assert!(!m.taken);
    assert_eq!(m.taken_at, "");
    assert_eq!(m.last_dose_date, "2025-01-01");
    assert_eq!(m.history.len(), 1);
    assert_eq!(m.history[0].timestamp, "08:05:00 - 2025/01/01");
    assert_eq!(m.history[0].dose, "500mg");
}

#[test]
fn remove_not_found() {
    let mut db = empty_db();
    add_simple(&mut db, "Aspirin", "daily", "8:00");
    assert_eq!(remove_medication(&mut db, "Tylenol"), RemoveOutcome::NotFound);
    assert_eq!(db.medications.len(), 1);
    assert_eq!(db.archived_medications.len(), 0);
}

#[test]
fn take_untake_inverse_on_mutable_fields() {
    let mut db = empty_db();
    add_simple(&mut db, "Metformin", "daily", "8:00");
    let now = moment(2025, 1, 1, 8, 5, 0);
    assert_eq!(take_medication(&mut db, "metformin", &now), TakeOutcome::Taken);
    assert!(db.medications[0].taken);
    assert_eq!(db.medications[0].taken_at, "08:05:00 - 2025/01/01");
    assert_eq!(db.medications[0].history.len(), 1);

    assert_eq!(untake_medication(&mut db, "METFORMIN"), UntakeOutcome::Untaken);
    let m = &db.medications[0];
    assert!(!m.taken);
    assert_eq!(m.taken_at, "");
    assert_eq!(m.history.len(), 0);
    // the last-dose date does not revert: it anchors the interval
    assert_eq!(m.last_dose_date, "2025-01-01");
}

#[test]
fn take_and_untake_conflicts() {
    let mut db = empty_db();
    add_simple(&mut db, "Aspirin", "daily", "8:00");
    let now = moment(2025, 1, 1, 8, 5, 0);
    assert_eq!(untake_medication(&mut db, "Aspirin"), UntakeOutcome::NotTaken);
    assert_eq!(take_medication(&mut db, "Aspirin", &now), TakeOutcome::Taken);
    assert_eq!(take_medication(&mut db, "Aspirin", &now), TakeOutcome::AlreadyTaken);
    assert_eq!(db.medications[0].history.len(), 1);

    assert_eq!(take_medication(&mut db, "Nothing", &now), TakeOutcome::NotFound);
    assert_eq!(untake_medication(&mut db, "Nothing"), UntakeOutcome::NotFound);

    remove_medication(&mut db, "Aspirin");
    assert_eq!(take_medication(&mut db, "Aspirin", &now), TakeOutcome::IsArchived);
    assert_eq!(untake_medication(&mut db, "Aspirin"), UntakeOutcome::IsArchived);
}

#[test]
fn take_all_marks_only_untaken() {
    let mut db = empty_db();
    add_simple(&mut db, "A", "daily", "8:00");
    add_simple(&mut db, "B", "daily", "9:00");
    let first = moment(2025, 1, 1, 8, 0, 0);
    take_medication(&mut db, "A", &first);
    let later = moment(2025, 1, 1, 9, 30, 0);
    take_all_medications(&mut db, &later);
    assert!(db.medications[0].taken);
    assert!(db.medications[1].taken);
    // A keeps its earlier stamp; B got the take-all stamp
    assert_eq!(db.medications[0].taken_at, "08:00:00 - 2025/01/01");
    assert_eq!(db.medications[0].history.len(), 1);
    assert_eq!(db.medications[1].taken_at, "09:30:00 - 2025/01/01");
    assert_eq!(db.medications[1].history.len(), 1);
}

#[test]
fn edit_applies_only_supplied_fields() {
    let mut db = empty_db();
    add_medication(
        &mut db,
        "Aspirin".to_string(),
        "500mg".to_string(),
        "8:00".to_string(),
        "daily".to_string(),
        Some("old note".to_string()),
    );
    assert_eq!(
        edit_medication(&mut db, "aspirin", Some("100mg".to_string()), None, None, None),
        EditOutcome::Edited
    );
    assert_eq!(db.medications[0].dose, "100mg");
    assert_eq!(db.medications[0].time_of_day, "8:00");
    assert_eq!(db.medications[0].medication_frequency, "daily");
    assert_eq!(db.medications[0].notes, Some("old note".to_string()));

    // empty new notes clear the notes
    assert_eq!(
        edit_medication(&mut db, "Aspirin", None, None, None, Some("".to_string())),
        EditOutcome::Edited
    );
    assert_eq!(db.medications[0].notes, None);

    assert_eq!(
        edit_medication(&mut db, "Aspirin", None, Some("99:00".to_string()), None, None),
        EditOutcome::InvalidTime
    );
    assert_eq!(
        edit_medication(&mut db, "Aspirin", Some("  ".to_string()), None, None, None),
        EditOutcome::EmptyDose
    );
    assert_eq!(
        edit_medication(&mut db, "Aspirin", None, None, Some("".to_string()), None),
        EditOutcome::EmptyFrequency
    );
    assert_eq!(edit_medication(&mut db, "Aspirin", None, None, None, None), EditOutcome::NoChanges);
    assert_eq!(
        edit_medication(&mut db, "Missing", Some("1mg".to_string()), None, None, None),
        EditOutcome::NotFound
    );
    assert_eq!(db.medications[0].dose, "100mg");
}

#[test]
fn reset_scenario_same_day_and_next_day() {
    let mut db = empty_db();
    add_simple(&mut db, "Metformin", "daily", "08:00");
    let now = moment(2025, 1, 1, 8, 5, 0);
    take_medication(&mut db, "Metformin", &now);
    assert_eq!(db.medications[0].last_dose_date, "2025-01-01");

    // same day: zero days elapsed, below the one-day interval, no reset
    let changed = reset_all_medications(&mut db, &CivilDate { year: 2025, month: 1, day: 1 });
    assert!(!changed);
    assert!(db.medications[0].taken);

    // next day: one day elapsed, the daily interval has passed, reset
    let changed = reset_all_medications(&mut db, &CivilDate { year: 2025, month: 1, day: 2 });
    assert!(changed);
    let m = &db.medications[0];
    assert!(!m.taken);
    assert_eq!(m.taken_at, "");
    assert_eq!(m.last_dose_date, "2025-01-01");
    assert_eq!(m.history.len(), 1);
}

#[test]
fn reset_is_idempotent() {
    let mut db = empty_db();
    add_simple(&mut db, "A", "daily", "8:00");
    add_simple(&mut db, "B", "every 3 days", "9:00");
    let now = moment(2025, 1, 1, 9, 0, 0);
    take_all_medications(&mut db, &now);
    let today = CivilDate { year: 2025, month: 1, day: 2 };
    reset_all_medications(&mut db, &today);
    let after_once: Vec<(bool, String, String)> = db
        .medications
        .iter()
        .map(|m| (m.taken, m.taken_at.clone(), m.last_dose_date.clone()))
        .collect();
    let changed = reset_all_medications(&mut db, &today);
    assert!(!changed);
    let after_twice: Vec<(bool, String, String)> = db
        .medications
        .iter()
        .map(|m| (m.taken, m.taken_at.clone(), m.last_dose_date.clone()))
        .collect();
    assert_eq!(after_once, after_twice);
    // the daily medication reset; the three-day one did not
    assert!(!db.medications[0].taken);
    assert!(db.medications[1].taken);
}

#[test]
fn reset_fail_safe_on_missing_or_bad_date() {
    let mut db = empty_db();
    db.medications.push(Medication {
        name: "A".to_string(),
        dose: "1".to_string(),
        time_of_day: "8:00".to_string(),
        medication_frequency: "daily".to_string(),
        taken: true,
        taken_at: "08:00:00 - 2025/01/01".to_string(),
        last_dose_date: String::new(),
        notes: None,
        history: Vec::new(),
    });
    db.medications.push(Medication {
        name: "B".to_string(),
        dose: "1".to_string(),
        time_of_day: "8:00".to_string(),
        medication_frequency: "daily".to_string(),
        taken: true,
        taken_at: "08:00:00 - 2025/01/01".to_string(),
        last_dose_date: "not a date".to_string(),
        notes: None,
        history: Vec::new(),
    });
    let changed = reset_all_medications(&mut db, &CivilDate { year: 2025, month: 1, day: 1 });
    assert!(changed);
    assert!(!db.medications[0].taken);
    assert!(!db.medications[1].taken);
}

#[test]
fn metformin_due_scenario() {
    let mut db = empty_db();
    add_simple(&mut db, "Metformin", "daily", "08:00");
    // never taken: due from 08:00 on, and indefinitely until taken
    assert!(!is_medication_due(&db.medications[0], &moment(2025, 1, 1, 7, 59, 0)));
    assert!(is_medication_due(&db.medications[0], &moment(2025, 1, 1, 8, 0, 0)));
    assert!(is_medication_due(&db.medications[0], &moment(2025, 1, 1, 23, 59, 0)));
    assert!(is_medication_due(&db.medications[0], &moment(2025, 3, 15, 10, 0, 0)));
    // taken: no longer due
    take_medication(&mut db, "Metformin", &moment(2025, 1, 1, 8, 5, 0));
    assert!(!is_medication_due(&db.medications[0], &moment(2025, 1, 1, 9, 0, 0)));
}

#[test]
fn prn_never_due_never_reset() {
    let mut db = empty_db();
    add_simple(&mut db, "Painkiller", "prn", "8:00");
    // untaken, past any time of day, long after any dose: still never due
    assert!(!is_medication_due(&db.medications[0], &moment(2025, 1, 1, 23, 59, 0)));
    let now = moment(2025, 1, 1, 8, 5, 0);
    take_medication(&mut db, "Painkiller", &now);
    // a PRN medication may always be taken again as far as the interval goes
    assert!(is_medication_due_by_interval(
        "2025-01-01",
        "prn",
        &CivilDate { year: 2025, month: 1, day: 1 }
    ));
    // but it is never auto-reset, however much time passes
    let changed = reset_all_medications(&mut db, &CivilDate { year: 2030, month: 6, day: 1 });
    assert!(!changed);
    assert!(db.medications[0].taken);
}

#[test]
fn interval_gating_across_days() {
    let today = CivilDate { year: 2025, month: 1, day: 10 };
    assert!(is_medication_due_by_interval("", "daily", &today)); // never dosed
    assert!(!is_medication_due_by_interval("2025-01-10", "daily", &today));
    assert!(is_medication_due_by_interval("2025-01-09", "daily", &today));
    assert!(!is_medication_due_by_interval("2025-01-08", "every 3 days", &today));
    assert!(is_medication_due_by_interval("2025-01-07", "every 3 days", &today));
    assert!(is_medication_due_by_interval("garbage date", "daily", &today)); // fail-safe
    // a last dose recorded in the future is not due
    assert!(!is_medication_due_by_interval("2025-01-11", "daily", &today));
    // leap-day arithmetic
    assert!(is_medication_due_by_interval(
        "2024-02-28",
        "every 2 days",
        &CivilDate { year: 2024, month: 3, day: 1 }
    ));
}

#[test]
fn corrupted_file_degrades_with_backup() {
    let (db, action) = resolve_load(DecodeOutcome::Corrupt);
    assert_eq!(action, LoadAction::BackupCorrupt);
    assert!(db.medications.is_empty());
    assert!(db.archived_medications.is_empty());
}

#[test]
fn load_outcomes() {
    let (db, action) = resolve_load(DecodeOutcome::Missing);
    assert_eq!(action, LoadAction::Keep);
    assert!(db.medications.is_empty() && db.archived_medications.is_empty());

    let (db, action) = resolve_load(DecodeOutcome::Unreadable);
    assert_eq!(action, LoadAction::Keep);
    assert!(db.medications.is_empty() && db.archived_medications.is_empty());

    let mut full = empty_db();
    add_medication(
        &mut full,
        "A".to_string(),
        "1".to_string(),
        "8:00".to_string(),
        "daily".to_string(),
        None,
    );
    let (db, action) = resolve_load(DecodeOutcome::Current(full));
    assert_eq!(action, LoadAction::Keep);
    assert_eq!(db.medications.len(), 1);

    let legacy = vec![Medication {
        name: "Old".to_string(),
        dose: "1".to_string(),
        time_of_day: "8:00".to_string(),
        medication_frequency: "daily".to_string(),
        taken: false,
        taken_at: String::new(),
        last_dose_date: String::new(),
        notes: None,
        history: Vec::new(),
    }];
    let (db, action) = resolve_load(DecodeOutcome::Legacy(legacy));
    assert_eq!(action, LoadAction::SaveMigrated);
    assert_eq!(db.medications.len(), 1);
    assert_eq!(db.medications[0].name, "Old");
    assert!(db.archived_medications.is_empty());
}

#[test]
fn untake_with_no_history_still_unmarks() {
    let mut db = empty_db();
    db.medications.push(Medication {
        name: "A".to_string(),
        dose: "1".to_string(),
        time_of_day: "8:00".to_string(),
        medication_frequency: "daily".to_string(),
        taken: true,
        taken_at: "08:00:00 - 2025/01/01".to_string(),
        last_dose_date: "2025-01-01".to_string(),
        notes: None,
        history: Vec::new(),
    });
    assert_eq!(untake_medication(&mut db, "A"), UntakeOutcome::Untaken);
    assert!(!db.medications[0].taken);
    assert_eq!(db.medications[0].taken_at, "");
    assert_eq!(db.medications[0].history.len(), 0);
}

#[test]
fn take_all_on_empty_store_changes_nothing() {
    let mut db = empty_db();
    take_all_medications(&mut db, &moment(2025, 1, 1, 8, 0, 0));
    assert!(db.medications.is_empty());
    assert!(db.archived_medications.is_empty());
}

#[test]
fn load_and_save_medications_preserve_archive() {
    let mut db = empty_db();
    add_simple(&mut db, "A", "daily", "8:00");
    add_simple(&mut db, "B", "daily", "9:00");
    remove_medication(&mut db, "B");
    let mut meds = load_medications(db);
    assert_eq!(meds.len(), 1);
    meds[0].dose = "2mg".to_string();
    let mut db2 = empty_db();
    add_simple(&mut db2, "C", "daily", "7:00");
    remove_medication(&mut db2, "C");
    save_medications(&mut db2, meds);
    assert_eq!(db2.medications.len(), 1);
    assert_eq!(db2.medications[0].dose, "2mg");
    assert_eq!(db2.archived_medications.len(), 1);
    assert_eq!(db2.archived_medications[0].name, "C");
}
