use pharm::daemon::{
    daemon_rollover, fresh_daemon_state, mark_notified, poll_medication, PollDecision,
};
use pharm::database::{Medication, MedicationDatabase};
use pharm::dates::{format_date, format_stamp, parse_date, parse_stamp, CivilDate, Moment};
use pharm::history::{
    adherence_tenths, expected_doses, filter_history_indices, history_cutoff,
    matching_medication_indices,
};
use pharm::database::{add_medication, take_medication, AddOutcome, DoseRecord};
use pharm::time::is_time_due;

fn moment(year: u32, month: u32, day: u32, hour: u32, minute: u32, second: u32) -> Moment {
    Moment { date: CivilDate { year, month, day }, hour, minute, second }
}

fn med(name: &str, freq: &str, time: &str, taken: bool, last_dose: &str) -> Medication {
    Medication {
        name: name.to_string(),
        dose: "1mg".to_string(),
        time_of_day: time.to_string(),
        medication_frequency: freq.to_string(),
        taken,
        taken_at: if taken { "08:00:00 - 2025/01/01".to_string() } else { String::new() },
        last_dose_date: last_dose.to_string(),
        notes: None,
        history: Vec::new(),
    }
}

#[test]
fn daemon_notifies_at_most_once_per_day() {
    let mut state = fresh_daemon_state(1);
    let now = moment(2025, 1, 1, 9, 0, 0);
    let m = med("Aspirin", "daily", "08:00", false, "");

    // due, untaken, not yet notified: notify
    assert_eq!(poll_medication(&mut state, &m, &now), PollDecision::Notify);
    // delivery succeeded: mark, and no second reminder this day
    mark_notified(&mut state, "Aspirin");
    assert_eq!(poll_medication(&mut state, &m, &now), PollDecision::Idle);
    // delivery failure would leave the mark unset, so the next cycle retries
    let mut retry_state = fresh_daemon_state(1);
    assert_eq!(poll_medication(&mut retry_state, &m, &now), PollDecision::Notify);
    assert_eq!(poll_medication(&mut retry_state, &m, &now), PollDecision::Notify);
}

#[test]
fn daemon_clears_mark_on_taken_so_untake_can_renotify() {
    let mut state = fresh_daemon_state(1);
    let now = moment(2025, 1, 1, 9, 0, 0);
    let due = med("Aspirin", "daily", "08:00", false, "");
    assert_eq!(poll_medication(&mut state, &due, &now), PollDecision::Notify);
    mark_notified(&mut state, "Aspirin");

    // the user takes it: the mark is cleared once
    let taken = med("Aspirin", "daily", "08:00", true, "2025-01-01");
    assert_eq!(poll_medication(&mut state, &taken, &now), PollDecision::ClearedNotification);
    assert_eq!(poll_medication(&mut state, &taken, &now), PollDecision::Idle);

    // the user untakes it: still due today, so it can notify again
    assert_eq!(poll_medication(&mut state, &due, &now), PollDecision::Notify);
}

#[test]
fn daemon_skips_prn_and_respects_time_and_interval() {
    let mut state = fresh_daemon_state(1);
    let now = moment(2025, 1, 1, 9, 0, 0);
    assert_eq!(
        poll_medication(&mut state, &med("P", "prn", "08:00", false, ""), &now),
        PollDecision::AsNeeded
    );
    // not yet due by time of day
    assert_eq!(
        poll_medication(&mut state, &med("A", "daily", "22:00", false, ""), &now),
        PollDecision::Idle
    );
    // blocked by the interval: dosed this very day
    assert_eq!(
        poll_medication(&mut state, &med("B", "daily", "08:00", false, "2025-01-01"), &now),
        PollDecision::Idle
    );
    // interval elapsed
    assert_eq!(
        poll_medication(&mut state, &med("C", "daily", "08:00", false, "2024-12-31"), &now),
        PollDecision::Notify
    );
}

#[test]
fn daemon_rollover_resets_marks_on_a_new_day() {
    let mut state = fresh_daemon_state(1);
    mark_notified(&mut state, "Aspirin");
    // same day: nothing happens
    assert!(!daemon_rollover(&mut state, 1));
    assert_eq!(state.notified_today.len(), 1);
    // new day: marks cleared, nightly reset owed
    assert!(daemon_rollover(&mut state, 2));
    assert_eq!(state.current_day, 2);
    assert!(state.notified_today.is_empty());
}

#[test]
fn date_parsing_and_formatting() {
    assert_eq!(
        parse_date("2025-01-31"),
        Some(CivilDate { year: 2025, month: 1, day: 31 })
    );
    assert_eq!(parse_date("2024-02-29"), Some(CivilDate { year: 2024, month: 2, day: 29 }));
    assert_eq!(parse_date("2023-02-29"), None); // not a leap year
    assert_eq!(parse_date("2025-13-01"), None);
    assert_eq!(parse_date("2025-00-10"), None);
    assert_eq!(parse_date("2025-04-31"), None);
    assert_eq!(parse_date("2025-1-1"), None); // fields are fixed width
    assert_eq!(parse_date("garbage"), None);

    let d = CivilDate { year: 2025, month: 3, day: 7 };
    let s = format_date(&d);
    assert_eq!(s, "2025-03-07");
    assert_eq!(parse_date(&s), Some(d));

    let m = moment(2025, 3, 7, 8, 5, 9);
    let stamp = format_stamp(&m);
    assert_eq!(stamp, "08:05:09 - 2025/03/07");
    assert_eq!(parse_stamp(&stamp), Some(m));
    assert_eq!(parse_stamp("8:05:09 - 2025/03/07"), None);
}

#[test]
fn history_window_filters_by_stamp() {
    let history = vec![
        DoseRecord { timestamp: "08:00:00 - 2025/01/01".to_string(), dose: "1".to_string() },
        DoseRecord { timestamp: "08:00:00 - 2025/01/20".to_string(), dose: "1".to_string() },
        DoseRecord { timestamp: "unreadable".to_string(), dose: "1".to_string() },
        DoseRecord { timestamp: "09:00:00 - 2025/01/25".to_string(), dose: "1".to_string() },
    ];
    // unbounded window: everything
    assert_eq!(filter_history_indices(&history, None), vec![0, 1, 2, 3]);
    // trailing ten days before the end of January; the unreadable stamp is
    // conservatively included
    let cutoff = history_cutoff(&moment(2025, 1, 28, 12, 0, 0), Some(10));
    assert!(cutoff.is_some());
    assert_eq!(filter_history_indices(&history, cutoff), vec![1, 2, 3]);
    // a one-day window keeps only unreadable stamps
    let cutoff = history_cutoff(&moment(2025, 1, 28, 12, 0, 0), Some(1));
    assert_eq!(filter_history_indices(&history, cutoff), vec![2]);
}

#[test]
fn history_selection_is_case_insensitive() {
    let meds = vec![
        med("Aspirin", "daily", "8:00", false, ""),
        med("Metformin", "daily", "8:00", false, ""),
        med("Ibuprofen", "prn", "8:00", false, ""),
    ];
    let all = matching_medication_indices(&meds, None);
    assert_eq!(all, vec![0, 1, 2]);
    let name = "METFORMIN".to_string();
    assert_eq!(matching_medication_indices(&meds, Some(&name)), vec![1]);
    let name = "nothing".to_string();
    assert_eq!(matching_medication_indices(&meds, Some(&name)), Vec::<usize>::new());
}

#[test]
fn adherence_is_capped_and_rounded() {
    assert_eq!(expected_doses(30, 1), 30);
    assert_eq!(expected_doses(30, 7), 4);
    assert_eq!(expected_doses(3, 7), 1); // never below one
    assert_eq!(adherence_tenths(30, 30), 1000); // 100.0%
    assert_eq!(adherence_tenths(40, 30), 1000); // capped at 100.0%
    assert_eq!(adherence_tenths(15, 30), 500); // 50.0%
    assert_eq!(adherence_tenths(2, 3), 667); // 66.7%
    assert_eq!(adherence_tenths(1, 3), 333); // 33.3%
    assert_eq!(adherence_tenths(0, 30), 0);
}

#[test]
fn due_check_against_the_wall_clock() {
    // whatever the clock says, an unparsable schedule is never due, and a
    // midnight schedule always is
    assert!(!is_time_due("garbage"));
    assert!(is_time_due("midnight"));
    assert!(is_time_due("00:00"));
}

#[test]
fn take_records_the_exact_stamp() {
    let mut db = MedicationDatabase { medications: Vec::new(), archived_medications: Vec::new() };
    assert_eq!(
        add_medication(
            &mut db,
            "A".to_string(),
            "10ml".to_string(),
            "8:00".to_string(),
            "daily".to_string(),
            None
        ),
        AddOutcome::Added
    );
    take_medication(&mut db, "A", &moment(2025, 12, 31, 23, 59, 58));
    assert_eq!(db.medications[0].taken_at, "23:59:58 - 2025/12/31");
    assert_eq!(db.medications[0].last_dose_date, "2025-12-31");
    assert_eq!(db.medications[0].history[0].timestamp, "23:59:58 - 2025/12/31");
    assert_eq!(db.medications[0].history[0].dose, "10ml");
}
