use class_notifier::dispatch::{classify, minutes_until_next_reset, Disposition};
use class_notifier::notifier::{ChannelAction, ChannelOutcome, Notifier};
use class_notifier::sched::Class;
use class_notifier::timeline::{build, Phase};

fn class(course: &str, start: &str, end: &str, link: &str) -> Class {
    Class::from_parts(course.to_string(), start, end, link.to_string()).unwrap()
}

#[test]
fn classify_missed_due_and_future() {
    // An event further in the past than the threshold is missed.
    assert_eq!(classify(525, 570, 15), Disposition::Missed);
    // Exactly at the threshold boundary it is still due now.
    assert_eq!(classify(555, 570, 15), Disposition::DueNow);
    assert_eq!(classify(570, 570, 15), Disposition::DueNow);
    // A future event is waited for by exactly its distance.
    assert_eq!(classify(571, 570, 15), Disposition::Wait(1));
    assert_eq!(classify(600, 570, 15), Disposition::Wait(30));
    // One minute past the threshold tips into missed.
    assert_eq!(classify(554, 570, 15), Disposition::Missed);
}

#[test]
fn reset_wait_spans_midnight() {
    assert_eq!(minutes_until_next_reset(1439, 120), 121);
    assert_eq!(minutes_until_next_reset(0, 120), 1560);
}

#[test]
fn upcoming_creates_and_tracks() {
    let c = class("CS101", "09:00", "10:00", "");
    let mut n = Notifier::new();
    let action = n.plan(Phase::Upcoming, &c);
    match action {
        ChannelAction::Create(content) => {
            assert_eq!(content.title, "Upcoming Class");
            assert_eq!(content.description, "`09:00-10:00` CS101 (Link not available)");
        },
        _ => panic!("Upcoming must create"),
    }
    n.apply(Phase::Upcoming, "CS101", ChannelOutcome::CreatedTracked("m1".to_string()));
    assert_eq!(n.tracked_id("CS101").map(|s| s.as_str()), Some("m1"));
}

#[test]
fn description_includes_link_when_present() {
    let c = class("CS101", "09:00", "10:00", "https://example.org/x");
    let n = Notifier::new();
    match n.plan(Phase::Upcoming, &c) {
        ChannelAction::Create(content) => {
            assert_eq!(
                content.description,
                "`09:00-10:00` [CS101](https://example.org/x)"
            );
        },
        _ => panic!("Upcoming must create"),
    }
}

// Handling a Starting event twice when a record exists performs one update
// per invocation and never changes the tracked message id.
#[test]
fn starting_twice_updates_same_message() {
    let c = class("CS101", "09:00", "10:00", "");
    let mut n = Notifier::new();
    n.apply(Phase::Upcoming, "CS101", ChannelOutcome::CreatedTracked("m1".to_string()));
    for _ in 0..2 {
        match n.plan(Phase::Starting, &c) {
            ChannelAction::Update(id, content) => {
                assert_eq!(id, "m1");
                assert_eq!(content.title, "Current Class");
            },
            _ => panic!("Starting with a record must update"),
        }
        n.apply(Phase::Starting, "CS101", ChannelOutcome::Succeeded);
        assert_eq!(n.tracked_id("CS101").map(|s| s.as_str()), Some("m1"));
    }
}

// A failed create leaves no record; the following Starting event finds no
// record and creates instead of updating.
#[test]
fn failed_create_makes_starting_create() {
    let c = class("CS101", "09:00", "10:00", "");
    let mut n = Notifier::new();
    match n.plan(Phase::Upcoming, &c) {
        ChannelAction::Create(_) => {},
        _ => panic!("Upcoming must create"),
    }
    n.apply(Phase::Upcoming, "CS101", ChannelOutcome::Failed);
    assert!(n.tracked_id("CS101").is_none());
    match n.plan(Phase::Starting, &c) {
        ChannelAction::Create(content) => {
            assert_eq!(content.title, "Current Class");
        },
        _ => panic!("Starting without a record must create"),
    }
}

#[test]
fn oversized_response_sends_untracked() {
    let c = class("CS101", "09:00", "10:00", "");
    let mut n = Notifier::new();
    n.apply(Phase::Upcoming, "CS101", ChannelOutcome::CreatedUntracked);
    assert!(n.tracked_id("CS101").is_none());
    assert_eq!(n.tracked_count(), 0);
}

#[test]
fn ending_deletes_and_forgets() {
    let c = class("CS101", "09:00", "10:00", "");
    let mut n = Notifier::new();
    n.apply(Phase::Upcoming, "CS101", ChannelOutcome::CreatedTracked("m1".to_string()));
    match n.plan(Phase::Ending, &c) {
        ChannelAction::Delete(id) => assert_eq!(id, "m1"),
        _ => panic!("Ending with a record must delete"),
    }
    n.apply(Phase::Ending, "CS101", ChannelOutcome::Succeeded);
    assert!(n.tracked_id("CS101").is_none());
    // Without a record, Ending has no message to target.
    match n.plan(Phase::Ending, &c) {
        ChannelAction::Stay => {},
        _ => panic!("Ending without a record must stay"),
    }
}

#[test]
fn failed_delete_leaves_record_dangling() {
    let c = class("CS101", "09:00", "10:00", "");
    let mut n = Notifier::new();
    n.apply(Phase::Upcoming, "CS101", ChannelOutcome::CreatedTracked("m1".to_string()));
    n.apply(Phase::Ending, "CS101", ChannelOutcome::Failed);
    assert_eq!(n.tracked_id("CS101").map(|s| s.as_str()), Some("m1"));
}

// reset_all always leaves the tracked mapping empty and hands out every
// tracked id for best-effort retraction.
#[test]
fn reset_all_empties_tracking() {
    let mut n = Notifier::new();
    n.apply(Phase::Upcoming, "CS101", ChannelOutcome::CreatedTracked("m1".to_string()));
    n.apply(Phase::Upcoming, "MA201", ChannelOutcome::CreatedTracked("m2".to_string()));
    n.apply(Phase::Upcoming, "PH301", ChannelOutcome::CreatedTracked("m3".to_string()));
    assert_eq!(n.tracked_count(), 3);
    let ids = n.reset_all();
    assert_eq!(ids, vec!["m1".to_string(), "m2".to_string(), "m3".to_string()]);
    assert_eq!(n.tracked_count(), 0);
    assert!(n.tracked_id("CS101").is_none());
    // A second reset finds nothing.
    assert!(n.reset_all().is_empty());
}

// Scenario: one Monday session 09:00-10:00 without a link, notice window
// 15 minutes, starting at 08:44: wait to 08:45, create the Upcoming
// notification, wait to 09:00, update it to Current, wait to 10:00, delete.
#[test]
fn full_day_from_before_the_notice() {
    let c = class("CS101", "09:00", "10:00", "");
    let events = build(&vec![c], 15);
    let mut n = Notifier::new();
    let threshold = 15;
    let mut now = 8 * 60 + 44;
    let mut log: Vec<String> = Vec::new();
    for ev in &events {
        match classify(ev.instant, now, threshold) {
            Disposition::Missed => {
                log.push(format!("skip {}", ev.class.course()));
                continue;
            },
            Disposition::Wait(w) => {
                now += w as i64;
            },
            Disposition::DueNow => {},
        }
        let action = n.plan(ev.phase, &ev.class);
        let outcome = match &action {
            ChannelAction::Create(content) => {
                log.push(format!("create {}", content.description));
                ChannelOutcome::CreatedTracked("m1".to_string())
            },
            ChannelAction::Update(id, content) => {
                log.push(format!("update {} {}", id, content.title));
                ChannelOutcome::Succeeded
            },
            ChannelAction::Delete(id) => {
                log.push(format!("delete {}", id));
                ChannelOutcome::Succeeded
            },
            ChannelAction::Stay => ChannelOutcome::Succeeded,
        };
        n.apply(ev.phase, ev.class.course(), outcome);
    }
    assert_eq!(now, 600);
    assert_eq!(
        log,
        vec![
            "create `09:00-10:00` CS101 (Link not available)".to_string(),
            "update m1 Current Class".to_string(),
            "delete m1".to_string(),
        ]
    );
    assert_eq!(n.tracked_count(), 0);
}

// Scenario: the process starts mid-class at 09:30; the Upcoming and
// Starting events are missed (45 and 30 minutes past, beyond the 15-minute
// threshold) and skipped without notifying; only Ending is dispatched.
#[test]
fn restart_mid_class_skips_past_events() {
    let c = class("CS101", "09:00", "10:00", "");
    let events = build(&vec![c], 15);
    let now = 9 * 60 + 30;
    assert_eq!(classify(events[0].instant, now, 15), Disposition::Missed);
    assert_eq!(classify(events[1].instant, now, 15), Disposition::Missed);
    assert_eq!(classify(events[2].instant, now, 15), Disposition::Wait(30));
    // The notifier was never called, so nothing is tracked for the course.
    let n = Notifier::new();
    assert!(n.tracked_id("CS101").is_none());
}
