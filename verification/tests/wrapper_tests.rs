use ctx_guard::clock::{LocalTime, Timestamp};
use ctx_guard::filename::{decode_filename, encode_filename};
use ctx_guard::metadata::{format_metadata, parse_metadata, CommandMetadata};

fn fraction(nanos: u32) -> String {
    let n = nanos % 1_000_000_000;
    if n == 0 {
        String::new()
    } else if n % 1_000_000 == 0 {
        format!(".{:03}", n / 1_000_000)
    } else if n % 1_000 == 0 {
        format!(".{:06}", n / 1_000)
    } else {
        format!(".{:09}", n)
    }
}

fn expected_rfc3339(t: &Timestamp) -> String {
    let l = &t.local;
    let size = if t.offset < 0 { -t.offset } else { t.offset };
    let minutes = (size + 30) / 60;
    format!(
        "{:04}-{:02}-{:02}T{:02}:{:02}:{:02}{}{}{:02}:{:02}",
        l.year,
        l.month,
        l.day,
        l.hour,
        l.minute,
        l.second + l.nanos / 1_000_000_000,
        fraction(l.nanos),
        if t.offset < 0 { '-' } else { '+' },
        minutes / 60,
        minutes % 60
    )
}

fn expected_stamp(l: &LocalTime) -> String {
    format!(
        "{:04}{:02}{:02}_{:02}{:02}{:02}",
        l.year,
        l.month,
        l.day,
        l.hour,
        l.minute,
        l.second + l.nanos / 1_000_000_000
    )
}

fn samples() -> Vec<Timestamp> {
    let years = [0, 1, 999, 1000, 1969, 1970, 2000, 2024, 2100, 9999];
    let days = [(1, 1), (2, 28), (2, 29), (3, 1), (6, 30), (12, 31)];
    let times = [(0, 0, 0), (9, 5, 7), (12, 0, 0), (23, 59, 59)];
    let nanos = [0, 1, 1_000, 120_000, 1_000_000, 500_000_000, 999_999_999, 1_000_000_000];
    let offsets = [0, 60, -60, 3_600, -18_000, 19_800, 45_900, 86_340, -86_340];
    let mut all = Vec::new();
    let mut k = 0usize;
    for y in years {
        for (mo, d) in days {
            for (h, mi, s) in times {
                let n = nanos[k % nanos.len()];
                let o = offsets[k % offsets.len()];
                k += 1;
                if let Some(t) = Timestamp::new(y, mo, d, h, mi, s, n, o) {
                    all.push(t);
                }
            }
        }
    }
    all
}

#[test]
fn every_sample_is_written_as_stated_and_read_back() {
    let all = samples();
    assert!(all.len() > 200);
    for t in all {
        let m = CommandMetadata {
            command: "make".to_string(),
            exit_code: 7,
            timestamp: t,
            summary: None,
        };
        let header = format_metadata(&m);
        let line = format!("\ntimestamp: {}\n", expected_rfc3339(&t));
        assert!(header.contains(&line), "{:?} in {}", t, header);
        let parsed = parse_metadata(&header).unwrap();
        assert_eq!(parsed.timestamp, t);
        assert_eq!(parsed.exit_code, 7);
        assert_eq!(parsed.command, "make");
    }
}

#[test]
fn every_sample_names_its_file_as_stated_and_is_read_back() {
    for t in samples() {
        let name = encode_filename("make", &t);
        assert_eq!(name, format!("make_{}.txt", expected_stamp(&t.local)));
        assert_eq!(decode_filename(&name), Some(t.local.whole_second()));
    }
}

#[test]
fn an_offset_with_seconds_is_written_to_the_nearest_minute() {
    for offset in [29, 30, -29, -30, 3_599, 86_399, -86_399] {
        let t = Timestamp::new(2024, 1, 1, 0, 0, 0, 0, offset).unwrap();
        let m = CommandMetadata { command: "x".to_string(), exit_code: 0, timestamp: t, summary: None };
        let line = format!("\ntimestamp: {}\n", expected_rfc3339(&t));
        assert!(format_metadata(&m).contains(&line));
    }
}

#[test]
fn timestamps_in_other_forms_are_read_too() {
    let header = |stamp: &str| {
        format!(
            "---CTX_GUARD_METADATA---\ncommand: x\nexit_code: 0\ntimestamp: {}\n---END_METADATA---\n",
            stamp
        )
    };
    let utc = Timestamp::new(2024, 3, 5, 14, 7, 9, 0, 0).unwrap();
    assert_eq!(parse_metadata(&header("2024-03-05T14:07:09Z")).unwrap().timestamp, utc);
    assert_eq!(parse_metadata(&header("2024-03-05 14:07:09z")).unwrap().timestamp, utc);
    assert_eq!(parse_metadata(&header("2024-03-05T14:07:09-00:00")).unwrap().timestamp, utc);
    let tenth = Timestamp::new(2024, 3, 5, 14, 7, 9, 100_000_000, 3_600).unwrap();
    assert_eq!(parse_metadata(&header("2024-03-05T14:07:09.1+01:00")).unwrap().timestamp, tenth);
    assert_eq!(
        parse_metadata(&header("2024-03-05T14:07:09.1000000000001+01:00")).unwrap().timestamp,
        tenth
    );
    let leap = Timestamp::new(2016, 12, 31, 23, 59, 59, 1_000_000_000, 0).unwrap();
    assert_eq!(parse_metadata(&header("2016-12-31T23:59:60+00:00")).unwrap().timestamp, leap);
    assert!(parse_metadata(&header("2024-03-05T14:07:09+24:00")).is_none());
    assert!(parse_metadata(&header("2024-03-05T14:07:09")).is_none());
    assert!(parse_metadata(&header("2024-3-5T14:07:09Z")).is_none());
    assert!(parse_metadata(&header("Tue, 5 Mar 2024 14:07:09 +0000")).is_none());
}

#[test]
fn instants_are_counted_from_1970_in_utc() {
    let epoch = Timestamp::new(1970, 1, 1, 0, 0, 0, 0, 0).unwrap().instant();
    assert_eq!((epoch.secs, epoch.nanos), (0, 0));
    let t = Timestamp::new(2024, 1, 1, 1, 0, 0, 5, 3_600).unwrap().instant();
    assert_eq!((t.secs, t.nanos), (1_704_067_200, 5));
    let west = Timestamp::new(1969, 12, 31, 19, 0, 0, 0, -18_000).unwrap().instant();
    assert_eq!(west.secs, 0);
    let old = Timestamp::new(0, 1, 1, 0, 0, 0, 0, 0).unwrap().instant();
    assert_eq!(old.secs, -62_167_219_200);
    assert!(old.before(&epoch));
    assert!(!epoch.before(&epoch));
    assert!(epoch.before(&t));
}
