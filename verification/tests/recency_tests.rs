use chrono::{Datelike, Timelike};
use ctx_guard::clock::{now, Timestamp};
use ctx_guard::metadata::CommandMetadata;
use ctx_guard::output::output_file_content;
use ctx_guard::recency::get_recent_commands;
use ctx_guard::retention::{cleanup_old_files, file_time, sweep_decision};

fn stamp(d: chrono::DateTime<chrono::FixedOffset>) -> Timestamp {
    Timestamp::new(
        d.year(),
        d.month(),
        d.day(),
        d.hour(),
        d.minute(),
        d.second(),
        d.nanosecond(),
        d.offset().local_minus_utc(),
    )
    .unwrap()
}

fn record(command: &str, exit_code: i32, timestamp: Timestamp) -> String {
    let m = CommandMetadata { command: command.to_string(), exit_code, timestamp, summary: None };
    output_file_content("some output\n", Some(&m))
}

fn utc(text: &str) -> Timestamp {
    stamp(chrono::DateTime::parse_from_rfc3339(text).unwrap())
}

#[test]
fn a_query_gives_the_commands_in_the_window_the_earliest_first() {
    let now = utc("2024-06-01T12:00:00+00:00");
    let contents = vec![
        record("third", 0, utc("2024-06-01T11:59:00+00:00")),
        record("too old", 0, utc("2024-06-01T11:29:59+00:00")),
        record("first", 1, utc("2024-06-01T11:30:00+00:00")),
        "no header here".to_string(),
        record("second", -1, utc("2024-06-01T13:45:00+02:00")),
        "---CTX_GUARD_METADATA---\ncommand: broken\n---END_METADATA---\n".to_string(),
    ];
    let recent = get_recent_commands(&contents, &now, 30);
    let names: Vec<(&str, i32)> = recent.iter().map(|e| (e.0.as_str(), e.1)).collect();
    assert_eq!(names, vec![("first", 1), ("second", -1), ("third", 0)]);
    assert_eq!(recent[1].2, utc("2024-06-01T13:45:00+02:00"));
}

#[test]
fn the_edge_of_the_window_is_in_it() {
    let now = utc("2024-06-01T12:00:00.500+00:00");
    let on_edge = utc("2024-06-01T11:00:00.500+00:00");
    let before_edge = utc("2024-06-01T11:00:00.499999999+00:00");
    let contents = vec![record("edge", 0, on_edge), record("before", 0, before_edge)];
    let recent = get_recent_commands(&contents, &now, 60);
    assert_eq!(recent.len(), 1);
    assert_eq!(recent[0].0, "edge");
}

#[test]
fn commands_of_one_time_keep_their_order() {
    let now = utc("2024-06-01T12:00:00+00:00");
    let t = utc("2024-06-01T11:50:00+00:00");
    let same_in_another_zone = utc("2024-06-01T06:50:00-05:00");
    let contents = vec![
        record("b", 0, t),
        record("a", 0, same_in_another_zone),
        record("c", 0, t),
        record("early", 0, utc("2024-06-01T11:40:00+00:00")),
    ];
    let recent = get_recent_commands(&contents, &now, 60);
    let names: Vec<&str> = recent.iter().map(|e| e.0.as_str()).collect();
    assert_eq!(names, vec!["early", "b", "a", "c"]);
}

#[test]
fn a_window_of_no_minutes_and_no_records() {
    let now = utc("2024-06-01T12:00:00+00:00");
    let none: Vec<String> = Vec::new();
    assert!(get_recent_commands(&none, &now, 10).is_empty());
    let contents = vec![record("now", 0, now), record("past", 0, utc("2024-06-01T11:59:59+00:00"))];
    let recent = get_recent_commands(&contents, &now, 0);
    assert_eq!(recent.len(), 1);
    assert_eq!(recent[0].0, "now");
    assert_eq!(get_recent_commands(&contents, &now, u32::MAX).len(), 2);
}

fn name_for(days_ago: i64, hours_ago: i64) -> String {
    let t = chrono::Local::now()
        - chrono::Duration::days(days_ago)
        - chrono::Duration::hours(hours_ago);
    format!("test_command_{}.txt", t.format("%Y%m%d_%H%M%S"))
}

#[test]
fn test_cleanup_old_files_deletes_old() {
    let old_filename = name_for(10, 0);
    let recent_filename = name_for(1, 0);
    let names = vec![old_filename.clone(), recent_filename.clone()];

    // Clean up files older than 5 days
    let deleted = cleanup_old_files(&names, &now().unwrap(), 5);

    assert!(deleted.contains(&old_filename), "Old file should have been deleted");
    assert!(!deleted.contains(&recent_filename), "Recent file should still exist");
}

#[test]
fn test_cleanup_old_files_preserves_recent() {
    let recent_filename = name_for(2, 0);
    let names = vec![recent_filename.clone()];
    let deleted = cleanup_old_files(&names, &now().unwrap(), 5);
    assert!(!deleted.contains(&recent_filename), "Recent file should still exist");
}

#[test]
fn test_cleanup_old_files_skips_invalid_names() {
    let names = vec![
        "invalid_file.txt".to_string(),
        "no_timestamp.txt".to_string(),
        "wrong_format_20240101.txt".to_string(),
    ];
    let deleted = cleanup_old_files(&names, &now().unwrap(), 5);
    assert!(deleted.is_empty(), "Invalid file should be skipped");
}

#[test]
fn test_cleanup_old_files_handles_empty_directory() {
    let names: Vec<String> = Vec::new();
    assert!(cleanup_old_files(&names, &now().unwrap(), 5).is_empty());
}

#[test]
fn test_cleanup_old_files_exact_cutoff() {
    let cutoff_filename = name_for(4, 23);
    let names = vec![cutoff_filename.clone()];
    let deleted = cleanup_old_files(&names, &now().unwrap(), 5);
    assert!(!deleted.contains(&cutoff_filename), "File within cutoff should still exist");
}

#[test]
fn a_sweep_keeps_the_order_and_takes_only_what_is_old() {
    let names = vec![
        "b_20000102_000000.txt".to_string(),
        "notes.md".to_string(),
        name_for(0, 1),
        "a_19991231_235959.txt".to_string(),
        "a_19991331_235959.txt".to_string(),
    ];
    let deleted = cleanup_old_files(&names, &now().unwrap(), 0);
    assert_eq!(
        deleted,
        vec![
            "b_20000102_000000.txt".to_string(),
            names[2].clone(),
            "a_19991231_235959.txt".to_string(),
        ]
    );
    let deleted = cleanup_old_files(&names, &now().unwrap(), 1);
    assert_eq!(deleted, vec!["b_20000102_000000.txt".to_string(), "a_19991231_235959.txt".to_string()]);
}

#[test]
fn the_decision_is_strictly_earlier_than_the_cutoff() {
    let now = utc("2024-06-10T12:00:00.250+00:00");
    let on_cutoff = utc("2024-06-05T12:00:00.250+00:00");
    let just_before = utc("2024-06-05T12:00:00.249+00:00");
    let in_another_zone = utc("2024-06-05T13:59:59+02:00");
    assert!(!sweep_decision(Some(&on_cutoff), &now, 5));
    assert!(sweep_decision(Some(&just_before), &now, 5));
    assert!(sweep_decision(Some(&in_another_zone), &now, 5));
    assert!(!sweep_decision(Some(&in_another_zone), &now, 6));
    assert!(!sweep_decision(None, &now, 0));
    assert!(!sweep_decision(Some(&just_before), &now, u32::MAX));
}

#[test]
fn the_time_of_a_file_is_that_of_its_name() {
    let t = file_time("make_20240601_120000.txt").unwrap();
    assert_eq!((t.local.year, t.local.month, t.local.day), (2024, 6, 1));
    assert_eq!((t.local.hour, t.local.minute, t.local.second, t.local.nanos), (12, 0, 0, 0));
    assert!(file_time("make.txt").is_none());
}
