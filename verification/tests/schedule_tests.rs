use class_notifier::sched::{Class, LoadError, Schedule, Weekday};
use class_notifier::timeline::{build, Phase};
use class_notifier::timeofday::{fmt_hhmm, parse_hhmm};

fn class(course: &str, start: &str, end: &str, link: &str) -> Class {
    Class::from_parts(course.to_string(), start, end, link.to_string()).unwrap()
}

#[test]
fn parse_hhmm_exact_values() {
    assert_eq!(parse_hhmm("00:00"), Some(0));
    assert_eq!(parse_hhmm("09:00"), Some(540));
    assert_eq!(parse_hhmm("09:05"), Some(545));
    assert_eq!(parse_hhmm("23:59"), Some(1439));
}

#[test]
fn parse_hhmm_rejects_malformed() {
    assert_eq!(parse_hhmm(""), None);
    assert_eq!(parse_hhmm("9:00"), None);
    assert_eq!(parse_hhmm("09:0"), None);
    assert_eq!(parse_hhmm("ab:cd"), None);
    assert_eq!(parse_hhmm("12-30"), None);
    assert_eq!(parse_hhmm("24:00"), None);
    assert_eq!(parse_hhmm("12:60"), None);
    assert_eq!(parse_hhmm("09:000"), None);
}

#[test]
fn fmt_hhmm_round_trip() {
    assert_eq!(fmt_hhmm(0), "00:00");
    assert_eq!(fmt_hhmm(540), "09:00");
    assert_eq!(fmt_hhmm(1439), "23:59");
    assert_eq!(parse_hhmm(&fmt_hhmm(545)), Some(545));
}

#[test]
fn class_fields_and_link_normalization() {
    let c = class("CS101", "09:00", "10:00", "");
    assert_eq!(c.course(), "CS101");
    assert_eq!(c.start_time(), 540);
    assert_eq!(c.end_time(), 600);
    assert!(c.link().is_none());

    let d = class("CS102", "08:30", "09:45", "https://example.org/room");
    assert_eq!(d.link().as_deref(), Some("https://example.org/room"));
}

#[test]
fn class_rejects_bad_times() {
    let bad_start = Class::from_parts("X".to_string(), "9am", "10:00", String::new());
    assert_eq!(bad_start.unwrap_err(), LoadError::BadStartTime);
    let bad_end = Class::from_parts("X".to_string(), "09:00", "25:00", String::new());
    assert_eq!(bad_end.unwrap_err(), LoadError::BadEndTime);
    let backwards = Class::from_parts("X".to_string(), "10:00", "09:00", String::new());
    assert_eq!(backwards.unwrap_err(), LoadError::StartNotBeforeEnd);
    let empty = Class::from_parts("X".to_string(), "09:00", "09:00", String::new());
    assert_eq!(empty.unwrap_err(), LoadError::StartNotBeforeEnd);
}

#[test]
fn schedule_keeps_days_apart() {
    let entries = vec![
        (Weekday::Mon, vec![class("CS101", "09:00", "10:00", "")]),
        (Weekday::Wed, vec![class("MA201", "11:00", "12:30", "")]),
    ];
    let s = match Schedule::from_map(&entries) {
        Ok(s) => s,
        Err(_) => panic!("schedule must load"),
    };
    assert_eq!(s.classes_on_date(Weekday::Mon).len(), 1);
    assert_eq!(s.classes_on_date(Weekday::Mon)[0].course(), "CS101");
    assert_eq!(s.classes_on_date(Weekday::Wed).len(), 1);
    assert_eq!(s.classes_on_date(Weekday::Tue).len(), 0);
    assert_eq!(s.classes_on_date(Weekday::Sun).len(), 0);
}

#[test]
fn schedule_later_entry_replaces_earlier() {
    let entries = vec![
        (Weekday::Fri, vec![class("OLD1", "09:00", "10:00", "")]),
        (Weekday::Fri, vec![class("NEW1", "13:00", "14:00", "")]),
    ];
    let s = match Schedule::from_map(&entries) {
        Ok(s) => s,
        Err(_) => panic!("schedule must load"),
    };
    assert_eq!(s.classes_on_date(Weekday::Fri).len(), 1);
    assert_eq!(s.classes_on_date(Weekday::Fri)[0].course(), "NEW1");
}

// Scenario: two sessions on the same weekday with an identical course id
// must fail loading rather than silently overwrite tracking state.
#[test]
fn duplicate_course_on_one_day_fails_loading() {
    let entries = vec![
        (
            Weekday::Mon,
            vec![
                class("CS101", "09:00", "10:00", ""),
                class("CS101", "11:00", "12:00", ""),
            ],
        ),
    ];
    match Schedule::from_map(&entries) {
        Ok(_) => panic!("duplicate course ids must be rejected"),
        Err(e) => assert_eq!(e, LoadError::DuplicateCourse),
    }
}

#[test]
fn same_course_on_different_days_is_fine() {
    let entries = vec![
        (Weekday::Mon, vec![class("CS101", "09:00", "10:00", "")]),
        (Weekday::Tue, vec![class("CS101", "09:00", "10:00", "")]),
    ];
    assert!(Schedule::from_map(&entries).is_ok());
}

#[test]
fn weekday_indices_are_monday_first() {
    assert_eq!(Weekday::Mon.day_index(), 0);
    assert_eq!(Weekday::Tue.day_index(), 1);
    assert_eq!(Weekday::Wed.day_index(), 2);
    assert_eq!(Weekday::Thu.day_index(), 3);
    assert_eq!(Weekday::Fri.day_index(), 4);
    assert_eq!(Weekday::Sat.day_index(), 5);
    assert_eq!(Weekday::Sun.day_index(), 6);
}

#[test]
fn build_emits_three_events_per_session_in_order() {
    let classes = vec![
        class("CS101", "09:00", "10:00", ""),
        class("MA201", "08:00", "09:30", ""),
    ];
    let events = build(&classes, 15);
    assert_eq!(events.len(), 6);
    // MA201: Upcoming 07:45, Starting 08:00, Ending 09:30
    // CS101: Upcoming 08:45, Starting 09:00, Ending 10:00
    let expect = [
        (465, Phase::Upcoming, "MA201"),
        (480, Phase::Starting, "MA201"),
        (525, Phase::Upcoming, "CS101"),
        (540, Phase::Starting, "CS101"),
        (570, Phase::Ending, "MA201"),
        (600, Phase::Ending, "CS101"),
    ];
    for (ev, (instant, phase, course)) in events.iter().zip(expect.iter()) {
        assert_eq!(ev.instant, *instant);
        assert_eq!(ev.phase, *phase);
        assert_eq!(ev.class.course(), *course);
    }
}

#[test]
fn build_breaks_ties_by_phase_then_course() {
    // B2 ends exactly when A1 starts: Starting outranks Ending at one instant.
    // A1 and C3 share all instants: course id decides.
    let classes = vec![
        class("C3", "09:00", "10:00", ""),
        class("A1", "09:00", "10:00", ""),
        class("B2", "08:00", "09:00", ""),
    ];
    let events = build(&classes, 15);
    let got: Vec<(i64, Phase, String)> = events
        .iter()
        .map(|e| (e.instant, e.phase, e.class.course().to_string()))
        .collect();
    let expect = vec![
        (465, Phase::Upcoming, "B2".to_string()),
        (480, Phase::Starting, "B2".to_string()),
        (525, Phase::Upcoming, "A1".to_string()),
        (525, Phase::Upcoming, "C3".to_string()),
        (540, Phase::Starting, "A1".to_string()),
        (540, Phase::Starting, "C3".to_string()),
        (540, Phase::Ending, "B2".to_string()),
        (600, Phase::Ending, "A1".to_string()),
        (600, Phase::Ending, "C3".to_string()),
    ];
    assert_eq!(got, expect);
}

#[test]
fn build_of_no_sessions_is_empty() {
    let events = build(&Vec::new(), 15);
    assert!(events.is_empty());
}

// The Upcoming instant falls one notice window before the start, and may
// fall before midnight; the Ending instant falls strictly after the start.
#[test]
fn event_spacing_holds_per_session() {
    let c = class("EARLY", "00:05", "01:00", "");
    let events = build(&vec![c], 30);
    assert_eq!(events[0].phase, Phase::Upcoming);
    assert_eq!(events[0].instant, -25);
    assert_eq!(events[1].phase, Phase::Starting);
    assert_eq!(events[1].instant, 5);
    assert_eq!(events[0].instant, events[1].instant - 30);
    assert_eq!(events[2].phase, Phase::Ending);
    assert!(events[2].instant > events[1].instant);
}
