use ctx_guard::clock::Timestamp;
use ctx_guard::metadata::{format_metadata, parse_metadata, CommandMetadata};
use ctx_guard::output::{
    format_fallback_output, output_file_content, update_output_file_summary, OutputError,
};

fn sample(summary: Option<&str>) -> CommandMetadata {
    CommandMetadata {
        command: "ls -la".to_string(),
        exit_code: 0,
        timestamp: Timestamp::new(2024, 3, 5, 14, 7, 9, 0, 3600).unwrap(),
        summary: summary.map(|s| s.to_string()),
    }
}

#[test]
fn test_format_fallback_output_short() {
    let output = "line1\nline2\nline3";
    let formatted = format_fallback_output(output, 20);
    assert_eq!(formatted, output);
}

#[test]
fn test_format_fallback_output_long() {
    let lines: Vec<String> = (1..=100).map(|i| format!("line{}", i)).collect();
    let output = lines.join("\n");
    let formatted = format_fallback_output(&output, 20);

    assert!(formatted.contains("line1"));
    assert!(formatted.contains("line100"));
    assert!(formatted.contains("... (60 lines omitted) ..."));
    assert!(!formatted.contains("line50")); // Should be in omitted section
}

#[test]
fn the_cut_keeps_both_ends_and_counts_the_rest() {
    assert_eq!(
        format_fallback_output("a\nb\nc\nd\ne", 2),
        "a\nb\n\n... (1 lines omitted) ...\n\nd\ne"
    );
    assert_eq!(format_fallback_output("a\nb\nc\nd", 2), "a\nb\nc\nd");
    assert_eq!(format_fallback_output("a\nb\nc\n", 1), "a\n\n... (1 lines omitted) ...\n\nc");
    assert_eq!(format_fallback_output("a\nb", 0), "\n\n... (2 lines omitted) ...\n\n");
    assert_eq!(format_fallback_output("", 0), "");
}

#[test]
fn a_final_line_feed_opens_no_line_and_carriage_returns_go_with_line_feeds() {
    assert_eq!(format_fallback_output("a\r\nb\r\nc\r\n", 1), "a\n\n... (1 lines omitted) ...\n\nc");
    assert_eq!(format_fallback_output("a\r\nb\r\n", 1), "a\r\nb\r\n");
    assert_eq!(format_fallback_output("a\n\nb\n\nc", 1), "a\n\n... (3 lines omitted) ...\n\nc");
    assert_eq!(format_fallback_output("a\nb\nc\r", 1), "a\n\n... (1 lines omitted) ...\n\nc\r");
}

#[test]
fn five_hundred_lines_leave_four_hundred_and_sixty_out() {
    let lines: Vec<String> = (1..=500).map(|i| format!("line{}", i)).collect();
    let formatted = format_fallback_output(&lines.join("\n"), 20);
    let expected = format!(
        "{}\n\n... (460 lines omitted) ...\n\n{}",
        lines[..20].join("\n"),
        lines[480..].join("\n")
    );
    assert_eq!(formatted, expected);
}

#[test]
fn the_header_has_one_line_for_each_field() {
    let header = format_metadata(&sample(None));
    assert_eq!(
        header,
        "---CTX_GUARD_METADATA---\ncommand: ls -la\nexit_code: 0\ntimestamp: 2024-03-05T14:07:09+01:00\nsummary: \n---END_METADATA---\n"
    );
}

#[test]
fn the_summary_goes_on_one_line() {
    let header = format_metadata(&sample(Some("first\nsecond\r\nthird")));
    assert_eq!(
        header,
        "---CTX_GUARD_METADATA---\ncommand: ls -la\nexit_code: 0\ntimestamp: 2024-03-05T14:07:09+01:00\nsummary: first second  third\n---END_METADATA---\n"
    );
}

#[test]
fn the_timestamp_is_written_with_fraction_and_offset() {
    let mut m = sample(None);
    m.exit_code = -1;
    m.timestamp = Timestamp::new(2024, 12, 31, 23, 59, 59, 123_000_000, -19_800).unwrap();
    assert!(format_metadata(&m).contains("\nexit_code: -1\ntimestamp: 2024-12-31T23:59:59.123-05:30\n"));
    m.timestamp = Timestamp::new(2024, 1, 2, 3, 4, 5, 123_456_000, 0).unwrap();
    assert!(format_metadata(&m).contains("\ntimestamp: 2024-01-02T03:04:05.123456+00:00\n"));
    m.timestamp = Timestamp::new(999, 1, 2, 3, 4, 5, 1, 86_340).unwrap();
    assert!(format_metadata(&m).contains("\ntimestamp: 0999-01-02T03:04:05.000000001+23:59\n"));
    m.timestamp = Timestamp::new(2016, 12, 31, 23, 59, 59, 1_250_000_000, 0).unwrap();
    assert!(format_metadata(&m).contains("\ntimestamp: 2016-12-31T23:59:60.250+00:00\n"));
    m.timestamp = Timestamp::new(2024, 1, 2, 3, 4, 5, 0, 3_629).unwrap();
    assert!(format_metadata(&m).contains("\ntimestamp: 2024-01-02T03:04:05+01:00\n"));
    m.timestamp = Timestamp::new(2024, 1, 2, 3, 4, 5, 0, -3_630).unwrap();
    assert!(format_metadata(&m).contains("\ntimestamp: 2024-01-02T03:04:05-01:01\n"));
}

#[test]
fn test_write_output_file() {
    let content = "test content";
    let read_content = output_file_content(content, None);
    assert_eq!(read_content, content);
}

#[test]
fn test_write_output_file_with_metadata() {
    let content = "test content";
    let metadata = CommandMetadata {
        command: "echo test".to_string(),
        exit_code: 0,
        timestamp: ctx_guard::clock::now().unwrap(),
        summary: None,
    };

    let read_content = output_file_content(content, Some(&metadata));
    assert!(read_content.contains("---CTX_GUARD_METADATA---"));
    assert!(read_content.contains("command: echo test"));
    assert!(read_content.contains("exit_code: 0"));
    assert!(read_content.contains("test content"));
}

#[test]
fn a_record_is_header_blank_line_and_body() {
    let m = sample(None);
    let content = output_file_content("body\nmore\n", Some(&m));
    assert_eq!(content, format!("{}\n\nbody\nmore\n", format_metadata(&m)));
}

#[test]
fn test_parse_metadata_from_file() {
    let metadata = CommandMetadata {
        command: "ls -la".to_string(),
        exit_code: 0,
        timestamp: ctx_guard::clock::now().unwrap(),
        summary: Some("Listed files".to_string()),
    };

    let content = output_file_content("output content", Some(&metadata));

    let parsed = parse_metadata(&content);
    assert!(parsed.is_some());
    let parsed_meta = parsed.unwrap();
    assert_eq!(parsed_meta.command, "ls -la");
    assert_eq!(parsed_meta.exit_code, 0);
    assert_eq!(parsed_meta.summary, Some("Listed files".to_string()));
}

#[test]
fn parsing_a_header_gives_the_metadata_back() {
    let mut m = sample(None);
    m.command = "grep -r \"a|b\" src/ | sort > out.txt".to_string();
    m.exit_code = -2147483648;
    m.timestamp = Timestamp::new(2024, 2, 29, 0, 0, 0, 987_654_321, -34_200).unwrap();
    let parsed = parse_metadata(&format_metadata(&m)).unwrap();
    assert_eq!(parsed.command, m.command);
    assert_eq!(parsed.exit_code, m.exit_code);
    assert_eq!(parsed.timestamp, m.timestamp);
    assert_eq!(parsed.summary, None);
}

#[test]
fn contents_without_a_whole_header_carry_no_metadata() {
    assert!(parse_metadata("").is_none());
    assert!(parse_metadata("plain output\n").is_none());
    assert!(parse_metadata(" ---CTX_GUARD_METADATA---\ncommand: x\n---END_METADATA---\n").is_none());
    assert!(parse_metadata("---CTX_GUARD_METADATA---\ncommand: x\nexit_code: 0\ntimestamp: 2024-03-05T14:07:09+01:00\n").is_none());
}

#[test]
fn a_header_that_lacks_a_field_carries_no_metadata() {
    let all = "---CTX_GUARD_METADATA---\ncommand: x\nexit_code: 0\ntimestamp: 2024-03-05T14:07:09+01:00\n---END_METADATA---\n";
    assert!(parse_metadata(all).is_some());
    assert!(parse_metadata(&all.replace("command: x\n", "")).is_none());
    assert!(parse_metadata(&all.replace("exit_code: 0\n", "")).is_none());
    assert!(parse_metadata(&all.replace("timestamp: 2024-03-05T14:07:09+01:00\n", "")).is_none());
    assert!(parse_metadata(&all.replace("exit_code: 0", "exit_code: zero")).is_none());
    assert!(parse_metadata(&all.replace("exit_code: 0", "exit_code: 2147483648")).is_none());
    assert!(parse_metadata(&all.replace("2024-03-05T", "2024-02-30T")).is_none());
    assert!(parse_metadata(&all.replace("+01:00", "")).is_none());
}

#[test]
fn a_field_behind_the_end_marker_is_not_read() {
    let text = "---CTX_GUARD_METADATA---\ncommand: x\nexit_code: 0\n---END_METADATA---\ntimestamp: 2024-03-05T14:07:09+01:00\n";
    assert!(parse_metadata(text).is_none());
}

#[test]
fn the_scan_passes_over_lines_it_does_not_know_and_takes_the_last_of_a_field() {
    let text = "---CTX_GUARD_METADATA---\nhost: box\ncommand:  first \ncommand: second\r\nexit_code: +7 \ntimestamp: 2024-03-05t14:07:09.5Z\nsummary:   \nsummary:  done \n---END_METADATA---\n\nbody";
    let m = parse_metadata(text).unwrap();
    assert_eq!(m.command, "second");
    assert_eq!(m.exit_code, 7);
    assert_eq!(m.timestamp, Timestamp::new(2024, 3, 5, 14, 7, 9, 500_000_000, 0).unwrap());
    assert_eq!(m.summary, Some("done".to_string()));
}

#[test]
fn a_strict_scan_fails_on_a_bad_exit_code_even_before_a_good_one() {
    let bad_first = "---CTX_GUARD_METADATA---\ncommand: x\nexit_code: ?\nexit_code: 3\ntimestamp: 2024-03-05T14:07:09+01:00\n---END_METADATA---\n\nbody";
    assert!(parse_metadata(bad_first).is_none());
    let updated = update_output_file_summary(bad_first, "s").unwrap();
    assert!(updated.starts_with("---CTX_GUARD_METADATA---\ncommand: x\nexit_code: 3\n"));
    let bad_last = "---CTX_GUARD_METADATA---\ncommand: x\nexit_code: 3\nexit_code: ?\ntimestamp: 2024-03-05T14:07:09+01:00\n---END_METADATA---\n\nbody";
    assert!(update_output_file_summary(bad_last, "s").is_none());
}

#[test]
fn attaching_a_summary_keeps_the_body_and_the_fields() {
    let m = sample(None);
    let body = "total 0\n-rw-r--r-- 1 me me 0 notes.txt\n";
    let created = output_file_content(body, Some(&m));
    let updated = update_output_file_summary(&created, "One file listed.").unwrap();
    assert_eq!(
        updated,
        format!(
            "---CTX_GUARD_METADATA---\ncommand: ls -la\nexit_code: 0\ntimestamp: 2024-03-05T14:07:09+01:00\nsummary: One file listed.\n---END_METADATA---\n\n\n{}",
            body
        )
    );
    let parsed = parse_metadata(&updated).unwrap();
    assert_eq!(parsed.summary, Some("One file listed.".to_string()));
    assert_eq!(parsed.command, m.command);
    assert_eq!(parsed.exit_code, m.exit_code);
    assert_eq!(parsed.timestamp, m.timestamp);
}

#[test]
fn attaching_the_same_summary_again_changes_nothing() {
    let created = output_file_content("body", Some(&sample(None)));
    let once = update_output_file_summary(&created, "done").unwrap();
    let twice = update_output_file_summary(&once, "done").unwrap();
    assert_eq!(once, twice);
    let other = update_output_file_summary(&once, "done\nagain").unwrap();
    assert_eq!(parse_metadata(&other).unwrap().summary, Some("done again".to_string()));
}

#[test]
fn a_file_without_the_start_marker_is_left_as_it_is() {
    assert!(update_output_file_summary("plain output\n", "summary").is_none());
    assert!(update_output_file_summary("", "summary").is_none());
    assert!(update_output_file_summary("x---CTX_GUARD_METADATA---\n---END_METADATA---\n", "s").is_none());
}

#[test]
fn a_broken_header_is_left_as_it_is() {
    assert!(update_output_file_summary("---CTX_GUARD_METADATA---\ncommand: x\n", "s").is_none());
    assert!(update_output_file_summary(
        "---CTX_GUARD_METADATA---\ncommand: x\nexit_code: 0\n---END_METADATA---\n\nbody",
        "s"
    )
    .is_none());
    assert!(update_output_file_summary(
        "---CTX_GUARD_METADATA---\ncommand: x\nexit_code: 0\ntimestamp: yesterday\n---END_METADATA---\n\nbody",
        "s"
    )
    .is_none());
}

#[test]
fn line_feeds_at_the_start_of_the_body_go() {
    let created = output_file_content("\n\nbody", Some(&sample(None)));
    let updated = update_output_file_summary(&created, "s").unwrap();
    assert!(updated.ends_with("---END_METADATA---\n\n\nbody"));
}

#[test]
fn the_output_error_has_its_words() {
    let e = OutputError::DirectoryError("permission denied".to_string());
    assert_eq!(e.message(), "Failed to create output directory: permission denied");
}
