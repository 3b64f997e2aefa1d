use ctx_guard::clock::{LocalTime, Timestamp};
use ctx_guard::filename::{
    decode_filename, encode_filename, generate_output_filename, is_record_name, slug,
};

fn at(year: i32, month: u32, day: u32, hour: u32, minute: u32, second: u32) -> Timestamp {
    Timestamp::new(year, month, day, hour, minute, second, 0, 0).unwrap()
}

#[test]
fn test_generate_output_filename() {
    let filename = generate_output_filename("npx jest").unwrap();
    assert!(filename.starts_with("npx_jest_"));
    assert!(filename.ends_with(".txt"));
    assert!(filename.contains("_"));
}

#[test]
fn test_generate_output_filename_special_chars() {
    let filename = generate_output_filename("curl -v https://example.com").unwrap();
    assert!(filename.contains("curl"));
    // The space before -v should be replaced with underscore
    assert!(filename.contains("-v") || filename.contains("_v"));
    assert!(!filename.contains(" "));
    assert!(!filename.contains("://"));
}

#[test]
fn test_generate_output_filename_long_command() {
    let long_command = "a".repeat(100);
    let filename = generate_output_filename(&long_command).unwrap();
    // Should be truncated to 50 chars for command slug
    let parts: Vec<&str> = filename.split('_').collect();
    assert!(parts[0].len() <= 50);
}

#[test]
fn a_generated_name_carries_the_time_of_the_clock() {
    let before = chrono::Local::now().naive_local();
    let filename = generate_output_filename("make all").unwrap();
    let after = chrono::Local::now().naive_local();
    let l = decode_filename(&filename).unwrap();
    let decoded = chrono::NaiveDate::from_ymd_opt(l.year, l.month, l.day)
        .unwrap()
        .and_hms_opt(l.hour, l.minute, l.second)
        .unwrap();
    assert!(decoded + chrono::Duration::seconds(1) > before);
    assert!(decoded <= after);
}

#[test]
fn a_long_command_is_cut_to_fifty_and_the_time_still_decodes() {
    let command = "a".repeat(100);
    let now = at(2024, 1, 1, 0, 0, 0);
    let name = encode_filename(&command, &now);
    assert_eq!(name, format!("{}_20240101_000000.txt", "a".repeat(50)));
    assert_eq!(slug(&command).chars().count(), 50);
    assert_eq!(decode_filename(&name), Some(now.local));
}

#[test]
fn every_unsafe_character_becomes_an_underscore() {
    let now = at(2023, 12, 31, 23, 59, 58);
    let name = encode_filename("a b/c\\d|e&f;g>h<i*j?k\"l'm", &now);
    assert_eq!(name, "a_b_c_d_e_f_g_h_i_j_k_l_m_20231231_235958.txt");
    assert_eq!(slug("curl -v https://example.com"), "curl_-v_https:__example.com");
    assert_eq!(slug(""), "");
}

#[test]
fn the_slug_counts_characters_not_bytes() {
    let command = "\u{e9}".repeat(60);
    assert_eq!(slug(&command), "\u{e9}".repeat(50));
}

#[test]
fn encoding_pads_each_field_with_zeros() {
    let now = at(987, 2, 3, 4, 5, 6);
    assert_eq!(encode_filename("x", &now), "x_09870203_040506.txt");
}

#[test]
fn decoding_gives_the_time_to_the_second() {
    let now = Timestamp::new(2024, 2, 29, 13, 14, 15, 987_654_321, -18_000).unwrap();
    let name = encode_filename("cargo test --all", &now);
    assert_eq!(name, "cargo_test_--all_20240229_131415.txt");
    let expected =
        LocalTime { year: 2024, month: 2, day: 29, hour: 13, minute: 14, second: 15, nanos: 0 };
    assert_eq!(decode_filename(&name), Some(expected));
}

#[test]
fn a_leap_second_is_written_as_sixty_and_read_back() {
    let now = Timestamp::new(2016, 12, 31, 23, 59, 59, 1_500_000_000, 0).unwrap();
    let name = encode_filename("x", &now);
    assert_eq!(name, "x_20161231_235960.txt");
    let expected = LocalTime {
        year: 2016,
        month: 12,
        day: 31,
        hour: 23,
        minute: 59,
        second: 59,
        nanos: 1_000_000_000,
    };
    assert_eq!(decode_filename(&name), Some(expected));
}

#[test]
fn names_of_another_shape_carry_no_time() {
    assert_eq!(decode_filename("invalid_file.txt"), None);
    assert_eq!(decode_filename("no_timestamp.txt"), None);
    assert_eq!(decode_filename("wrong_format_20240101.txt"), None);
    assert_eq!(decode_filename("20240101_000000.txt"), None);
    assert_eq!(decode_filename("x_20240101_000000.log"), None);
    assert_eq!(decode_filename("x_20240101_000000"), None);
    assert_eq!(decode_filename("x_2024010a_000000.txt"), None);
    assert_eq!(decode_filename("x_20240101_00000.txt"), None);
    assert_eq!(decode_filename("x_202401010_000000.txt"), None);
    assert_eq!(decode_filename("x_\u{ff12}\u{ff10}\u{ff12}\u{ff14}\u{ff10}\u{ff11}\u{ff10}\u{ff11}_000000.txt"), None);
    assert_eq!(decode_filename(".txt"), None);
    assert_eq!(decode_filename(""), None);
}

#[test]
fn numbers_that_name_no_time_carry_none() {
    assert_eq!(decode_filename("x_20241301_000000.txt"), None);
    assert_eq!(decode_filename("x_20240230_000000.txt"), None);
    assert_eq!(decode_filename("x_20230229_000000.txt"), None);
    assert_eq!(decode_filename("x_20240100_000000.txt"), None);
    assert_eq!(decode_filename("x_20240101_240000.txt"), None);
    assert_eq!(decode_filename("x_20240101_006000.txt"), None);
    assert_eq!(decode_filename("x_20240101_000061.txt"), None);
}

#[test]
fn an_empty_slug_still_decodes() {
    let expected =
        LocalTime { year: 2024, month: 1, day: 1, hour: 0, minute: 0, second: 0, nanos: 0 };
    assert_eq!(decode_filename("_20240101_000000.txt"), Some(expected));
    let year_zero =
        LocalTime { year: 0, month: 1, day: 1, hour: 0, minute: 0, second: 0, nanos: 0 };
    assert_eq!(decode_filename("a_b_c_00000101_000000.txt"), Some(year_zero));
}

#[test]
fn a_record_name_ends_in_the_extension() {
    assert!(is_record_name("ls_20240101_000000.txt"));
    assert!(is_record_name(".txt"));
    assert!(!is_record_name("ls_20240101_000000.txt.bak"));
    assert!(!is_record_name("txt"));
    assert!(!is_record_name("notes.TXT"));
}

#[test]
fn cutting_to_the_second_keeps_a_leap_second() {
    let t = Timestamp::new(2024, 5, 6, 7, 8, 9, 999_999_999, 0).unwrap();
    assert_eq!(t.local.whole_second().nanos, 0);
    assert_eq!(t.local.whole_second().second, 9);
    let leap = Timestamp::new(2016, 12, 31, 23, 59, 59, 1_999_999_999, 0).unwrap();
    assert_eq!(leap.local.whole_second().nanos, 1_000_000_000);
    assert_eq!(decode_filename(&encode_filename("x", &t)), Some(t.local.whole_second()));
}

#[test]
fn the_output_module_offers_the_function_too() {
    let name = ctx_guard::output::generate_output_filename("ls").unwrap();
    assert!(name.starts_with("ls_"));
}
