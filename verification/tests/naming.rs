use bcachefs_auto_snapshot::freq::Freq;
use bcachefs_auto_snapshot::instant::Instant;
use bcachefs_auto_snapshot::name::format_name;
use bcachefs_auto_snapshot::name::parse_name;
use bcachefs_auto_snapshot::order::ts_le;

fn at(year: u32, month: u32, day: u32, hour: u32, minute: u32, second: u32) -> Instant {
    Instant::new(year, month, day, hour, minute, second).unwrap()
}

#[test]
fn format_is_fixed_width_and_zero_padded() {
    let t = at(7, 1, 2, 3, 4, 5);
    assert_eq!(format_name(&t, &Freq::Daily), "0007-01-02-030405_daily");
    let t = at(2024, 12, 31, 23, 59, 59);
    assert_eq!(format_name(&t, &Freq::Yearly), "2024-12-31-235959_yearly");
}

#[test]
fn format_appends_each_class_tag() {
    let t = at(2024, 3, 5, 14, 0, 0);
    assert_eq!(format_name(&t, &Freq::Frequently), "2024-03-05-140000_frequently");
    assert_eq!(format_name(&t, &Freq::Hourly), "2024-03-05-140000_hourly");
    assert_eq!(format_name(&t, &Freq::Daily), "2024-03-05-140000_daily");
    assert_eq!(format_name(&t, &Freq::Monthly), "2024-03-05-140000_monthly");
    assert_eq!(format_name(&t, &Freq::Yearly), "2024-03-05-140000_yearly");
}

#[test]
fn generated_names_parse_back_to_their_class() {
    let t = at(2024, 3, 5, 14, 0, 0);
    for f in [Freq::Frequently, Freq::Hourly, Freq::Daily, Freq::Monthly, Freq::Yearly] {
        let name = format_name(&t, &f);
        assert_eq!(parse_name(&name), Some(f));
    }
}

#[test]
fn unrelated_names_parse_to_none() {
    assert_eq!(parse_name("hello.txt"), None);
    assert_eq!(parse_name(""), None);
    assert_eq!(parse_name("2024-03-05-140000_weekly"), None);
    assert_eq!(parse_name("2024-03-05-140000_hourly.bak"), None);
    assert_eq!(parse_name("hourly_2024"), None);
    assert_eq!(parse_name("trailing_"), None);
}

#[test]
fn tail_segment_rule_matches_split_last() {
    // No underscore at all: the whole name is the candidate tag.
    assert_eq!(parse_name("hourly"), Some(Freq::Hourly));
    // Several underscores: only the last segment counts.
    assert_eq!(parse_name("a_b_daily"), Some(Freq::Daily));
}

#[test]
fn class_tags_round_trip_as_strings() {
    for f in [Freq::Frequently, Freq::Hourly, Freq::Daily, Freq::Monthly, Freq::Yearly] {
        assert_eq!(Freq::from_str(f.as_str()), Some(f));
    }
    assert_eq!(Freq::from_str("weekly"), None);
    assert_eq!(Freq::from_str(""), None);
}

#[test]
fn stamp_order_is_chronological() {
    let older = format_name(&at(2024, 3, 5, 9, 59, 59), &Freq::Hourly);
    let newer = format_name(&at(2024, 3, 5, 10, 0, 0), &Freq::Hourly);
    assert!(ts_le(&older, &newer));
    assert!(!ts_le(&newer, &older));
    // The class tag does not take part in the comparison.
    let a = format_name(&at(2024, 3, 5, 10, 0, 0), &Freq::Frequently);
    let b = format_name(&at(2024, 3, 5, 10, 0, 0), &Freq::Yearly);
    assert!(ts_le(&a, &b) && ts_le(&b, &a));
}

#[test]
fn instant_rejects_out_of_range_fields() {
    assert!(Instant::new(2024, 0, 5, 0, 0, 0).is_none());
    assert!(Instant::new(2024, 13, 5, 0, 0, 0).is_none());
    assert!(Instant::new(2024, 3, 0, 0, 0, 0).is_none());
    assert!(Instant::new(2024, 3, 32, 0, 0, 0).is_none());
    assert!(Instant::new(2024, 3, 5, 24, 0, 0).is_none());
    assert!(Instant::new(2024, 3, 5, 0, 60, 0).is_none());
    assert!(Instant::new(2024, 3, 5, 0, 0, 60).is_none());
    assert!(Instant::new(10000, 3, 5, 0, 0, 0).is_none());
    assert!(Instant::new(9999, 12, 31, 23, 59, 59).is_some());
}
