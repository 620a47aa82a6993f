use bitloops::clock::{clock_reading, read_clock, timestamp_component};
use bitloops::stamp::{archive_file_name, format_timestamp, newest_archive, parse_archive_stamp};

#[test]
fn archive_stamp_only_matches_the_exact_file_name() {
    assert_eq!(
        parse_archive_stamp("1789891344-493779__ariadne1.js.json", "ariadne1.js"),
        Some((1789891344, 493779))
    );
    assert_eq!(parse_archive_stamp("1789891344-493779__a__b.js.json", "b.js"), None);
    assert_eq!(
        parse_archive_stamp("1789891344-493779__a__b.js.json", "a__b.js"),
        Some((1789891344, 493779))
    );
    assert_eq!(parse_archive_stamp("notes.json", "notes"), None);
}

#[test]
fn timestamp_pads_microseconds_to_six_digits() {
    assert_eq!(format_timestamp(1789891344, 493779), "1789891344-493779");
    assert_eq!(format_timestamp(7, 42), "7-000042");
    assert_eq!(format_timestamp(0, 0), "0-000000");
    assert_eq!(format_timestamp(u64::MAX, 999999), "18446744073709551615-999999");
}

#[test]
fn archive_file_name_layout() {
    assert_eq!(archive_file_name(1789891344, 5, "a.rs"), "1789891344-000005__a.rs.json");
    assert_eq!(archive_file_name(12, 345678, "a__b.js"), "12-345678__a__b.js.json");
}

#[test]
fn archive_name_round_trips_through_the_parser() {
    for (secs, micros, name) in [
        (0u64, 0u32, "a.rs"),
        (1789891344, 493779, "ariadne1.js"),
        (u64::MAX, 999999, "x__y.json"),
        (5, 1, ""),
        (42, 7, "-_-"),
    ] {
        let dest = archive_file_name(secs, micros, name);
        assert_eq!(parse_archive_stamp(&dest, name), Some((secs, micros as u64)));
    }
}

#[test]
fn stamp_numbers_read_as_u64_parse_reads_them() {
    assert_eq!(parse_archive_stamp("+12-+0034__a.json", "a"), Some((12, 34)));
    assert_eq!(parse_archive_stamp("-12-34__a.json", "a"), None);
    assert_eq!(parse_archive_stamp("12-__a.json", "a"), None);
    assert_eq!(parse_archive_stamp("+-1__a.json", "a"), None);
    assert_eq!(parse_archive_stamp("1234__a.json", "a"), None);
    assert_eq!(parse_archive_stamp("18446744073709551616-1__a.json", "a"), None);
    assert_eq!(
        parse_archive_stamp("18446744073709551615-1__a.json", "a"),
        Some((u64::MAX, 1))
    );
    assert_eq!(parse_archive_stamp("1-2__a.json.bak", "a"), None);
    assert_eq!(parse_archive_stamp("1-2__a.JSON", "a"), None);
    assert_eq!(parse_archive_stamp("1-2_a.json", "a"), None);
    assert_eq!(parse_archive_stamp("1-2-3__a.json", "a"), None);
    assert_eq!(parse_archive_stamp("1 -2__a.json", "a"), None);
}

#[test]
fn newest_archive_picks_the_latest_stamp_of_the_file() {
    let names: Vec<String> = [
        "10-000005__a.rs.json",
        "notes.txt",
        "11-000001__a.rs.json",
        "99-000000__b.rs.json",
        "10-999999__a.rs.json",
    ]
    .iter()
    .map(|s| s.to_string())
    .collect();
    assert_eq!(newest_archive(&names, "a.rs"), Some(2));
    assert_eq!(newest_archive(&names, "b.rs"), Some(3));
    assert_eq!(newest_archive(&names, "c.rs"), None);
    assert_eq!(newest_archive(&Vec::new(), "a.rs"), None);
}

#[test]
fn newest_archive_takes_the_last_of_equal_stamps() {
    let names: Vec<String> = ["1-000002__a.json", "01-2__a.json", "0-9__a.json"]
        .iter()
        .map(|s| s.to_string())
        .collect();
    assert_eq!(newest_archive(&names, "a"), Some(1));
}

#[test]
fn clock_reading_has_sub_second_microseconds() {
    let (secs, micros) = read_clock();
    assert!(micros < 1_000_000);
    assert!(secs > 1_600_000_000);
    let stamp = timestamp_component();
    let (s, m) = stamp.split_once('-').unwrap();
    assert!(s.parse::<u64>().unwrap() >= secs);
    assert_eq!(m.len(), 6);
}

#[test]
fn clock_before_the_epoch_reads_as_zero() {
    assert_eq!(clock_reading(None), (0, 0));
    assert_eq!(clock_reading(Some((5, 7))), (5, 7));
    assert_eq!(format_timestamp(clock_reading(None).0, clock_reading(None).1), "0-000000");
}
