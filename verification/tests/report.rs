use timelog::Activities;
use timelog::Activity;
use timelog::Duration;
use timelog::Entry;

/// Day number of the log's date, counted in days from 1970-01-01.
const DAY: i64 = 19153;

fn at(hours: i64, minutes: i64) -> i64 {
    DAY * 1440 + hours * 60 + minutes
}

fn entry(stop: i64, task: &str) -> Entry {
    Entry { stop, task: task.to_string() }
}

fn day_log() -> Vec<Entry> {
    vec![
        entry(at(7, 0), "arrived"),
        entry(at(8, 45), "gtimelog: code"),
        entry(at(9, 0), "** tea"),
        entry(at(12, 5), "gtimelog: code"),
        entry(at(12, 35), "customer joe: inquiry"),
        entry(at(13, 15), "** lunch"),
        entry(at(14, 0), "code"),
        entry(at(15, 0), "bug triage"),
        entry(at(15, 10), "** tea"),
        entry(at(16, 0), "customer joe: support"),
    ]
}

#[test]
fn test_activity_display() {
    assert_eq!(
        &Activity { name: "code this".to_string(), duration: Duration::minutes(3) }.render(),
        " 0 h  3 min: code this"
    );
    assert_eq!(
        &Activity { name: "code this".to_string(), duration: Duration::minutes(59) }.render(),
        " 0 h 59 min: code this"
    );
    assert_eq!(
        &Activity { name: "code this".to_string(), duration: Duration::minutes(60) }.render(),
        " 1 h  0 min: code this"
    );
    assert_eq!(
        &Activity { name: "code this".to_string(), duration: Duration::minutes(23 * 60 + 1) }
            .render(),
        "23 h  1 min: code this"
    );
}

#[test]
fn test_activities_construct() {
    let a = Activities::new_from_entries(&vec![]);
    assert_eq!(a.activities.len(), 0);
    assert_eq!(a.total_work, Duration::minutes(0));
    assert_eq!(a.total_slack, Duration::minutes(0));

    let a = Activities::new_from_entries(&day_log());
    assert_eq!(a.total_work, Duration::minutes(475));
    assert_eq!(a.total_slack, Duration::minutes(65));
    assert_eq!(a.activities.len(), 7);
    assert_eq!(a.activities[0].name, "gtimelog: code");
    // first block 1:45, second block 3:05
    assert_eq!(a.activities[0].duration, Duration::hours(4).plus(Duration::minutes(50)));

    assert_eq!(
        a.render(),
        " 4 h 50 min: gtimelog: code
 0 h 25 min: ** tea
 0 h 30 min: customer joe: inquiry
 0 h 40 min: ** lunch
 0 h 45 min: code
 1 h  0 min: bug triage
 0 h 50 min: customer joe: support
-------
Total work done: 7 h 55 min
Total slacking: 1 h 5 min\n"
    );
}

#[test]
fn test_singleton_log_charges_nothing() {
    let a = Activities::new_from_entries(&vec![entry(at(9, 0), "arrived")]);
    assert_eq!(a.activities.len(), 0);
    assert_eq!(a.total_work, Duration::minutes(0));
    assert_eq!(a.total_slack, Duration::minutes(0));
}

#[test]
fn test_totals_decompose_on_example() {
    // Work plus slack equals the whole span from the first to the last stop.
    let a = Activities::new_from_entries(&day_log());
    let span = at(16, 0) - at(7, 0);
    assert_eq!(a.total_work.minutes + a.total_slack.minutes, span);
}

#[test]
fn test_durations_sum_to_totals() {
    // Every interval lands in exactly one activity.
    let a = Activities::new_from_entries(&day_log());
    let sum: i64 = a.activities.iter().map(|x| x.duration.minutes).sum();
    assert_eq!(sum, a.total_work.minutes + a.total_slack.minutes);
}

#[test]
fn test_first_occurrence_order() {
    // The first entry's label is discarded; the rest keep the order in
    // which each label first appears, however often it recurs.
    let log = vec![
        entry(0, "alpha"),
        entry(10, "beta"),
        entry(30, "alpha"),
        entry(35, "gamma"),
        entry(60, "beta"),
        entry(70, "alpha"),
    ];
    let a = Activities::new_from_entries(&log);
    let names: Vec<&str> = a.activities.iter().map(|x| x.name.as_str()).collect();
    assert_eq!(names, vec!["beta", "alpha", "gamma"]);
    assert_eq!(a.activities[0].duration, Duration::minutes(10 + 25));
    assert_eq!(a.activities[1].duration, Duration::minutes(20 + 10));
    assert_eq!(a.activities[2].duration, Duration::minutes(5));
}

#[test]
fn test_slack_classification() {
    // A label marked `**` feeds only the slack total; any other label,
    // the marker elsewhere in it included, feeds only the work total.
    let log = vec![
        entry(0, "arrived"),
        entry(25, "** nap"),
        entry(40, "work **"),
        entry(41, "*almost marked"),
        entry(45, "** nap"),
    ];
    let a = Activities::new_from_entries(&log);
    assert_eq!(a.total_slack, Duration::minutes(25 + 4));
    assert_eq!(a.total_work, Duration::minutes(15 + 1));
    assert_eq!(a.activities.len(), 3);
    assert_eq!(a.activities[0].name, "** nap");
    assert_eq!(a.activities[0].duration, Duration::minutes(29));
}

#[test]
fn test_zero_length_interval() {
    // A repeated timestamp still charges its label, with zero minutes.
    let log = vec![entry(100, "arrived"), entry(100, "blink"), entry(100, "blink")];
    let a = Activities::new_from_entries(&log);
    assert_eq!(a.activities.len(), 1);
    assert_eq!(a.activities[0].name, "blink");
    assert_eq!(a.activities[0].duration, Duration::minutes(0));
    assert_eq!(a.total_work, Duration::minutes(0));
    assert_eq!(a.total_slack, Duration::minutes(0));
}

#[test]
fn test_render_empty_report() {
    let a = Activities::new_from_entries(&vec![]);
    assert_eq!(a.render(), "-------\nTotal work done: 0 h 0 min\nTotal slacking: 0 h 0 min\n");
}

#[test]
fn test_render_unpadded_totals() {
    // Totals render hours and minutes as plain numerals, however wide.
    let log = vec![entry(0, "arrived"), entry(1381, "deep work"), entry(1381 + 725, "** rest")];
    let a = Activities::new_from_entries(&log);
    assert_eq!(a.render(), "23 h  1 min: deep work\n12 h  5 min: ** rest\n-------\nTotal work done: 23 h 1 min\nTotal slacking: 12 h 5 min\n");
}

#[test]
fn test_duration_accessors() {
    let d = Duration::minutes(1381);
    assert_eq!(d.num_hours(), 23);
    assert_eq!(d.num_minutes(), 1381);
    assert_eq!(Duration::hours(2), Duration::minutes(120));
    assert_eq!(Duration::minutes(40).plus(Duration::minutes(2)), Duration::minutes(42));
}
