use mpd_easy::stats::HumanReadableDuration;
use mpd_easy::time::Time;
use mpd_easy::time::Track;

#[test]
fn compute_offset_positive() {
    let time = Time::parse("0:05");

    assert_eq!(time.compute_offset("0:15"), 20);
}

#[test]
fn compute_offset_negative() {
    let time = Time::parse("1:00");

    assert_eq!(time.compute_offset("-0:30"), 30);
}

#[test]
fn test_time_from_duration() {
    let duration: u64 = 3661; // 1 hour, 1 minute, 1 second
    let time = Time::from_secs(duration);
    assert_eq!(time.as_string, "01:01:01");
}

#[test]
fn test_time_from_u64() {
    let duration: u64 = 3661; // 1 hour, 1 minute, 1 second
    let time = Time::from_secs(duration);
    assert_eq!(time.as_string, "01:01:01");
}

#[test]
fn test_time_display() {
    let time = Time::parse("5:30");
    assert_eq!(time.format(), "00:05:30");
}

#[test]
fn test_human_readable_duration_to_string() {
    let human_duration = HumanReadableDuration::from(90061u64); // 1 day, 1 hour, 1 minute, 1 second
    assert_eq!(human_duration.to_string(), "1 days, 1:01:01");
}

#[test]
fn time_test_human_readable_duration_to_string() {
    let human_duration = HumanReadableDuration::from(90061u64);
    assert_eq!(human_duration.to_string(), "1 days, 1:01:01");
}

#[test]
fn test_track_from_option() {
    let track = Track::from_option(Some((60, 300)));
    assert_eq!(track.elapsed.as_string, "00:01:00");
    assert_eq!(track.total.as_string, "00:05:00");
}

#[test]
fn test_track_from_none() {
    let track = Track::from_option(None);
    assert_eq!(track.elapsed.as_secs, 0);
    assert_eq!(track.total.as_string, "00:00:00");
}

#[test]
fn test_parse_single_field() {
    assert_eq!(Time::parse("5").format(), "00:00:05");
}

#[test]
fn test_parse_two_fields() {
    assert_eq!(Time::parse("2:03").format(), "00:02:03");
}

#[test]
fn test_parse_three_fields() {
    assert_eq!(Time::parse("1:02:03").format(), "01:02:03");
}

#[test]
fn test_parse_strips_other_characters() {
    // Only digits and colons survive the cleaning pass.
    assert_eq!(Time::parse(" 2m:03s ").as_secs, 123);
}

#[test]
fn test_parse_overflowing_minutes_carry() {
    // 90 minutes re-render with the carry applied.
    assert_eq!(Time::parse("90:00").format(), "01:30:00");
}

#[test]
fn test_parse_too_many_fields_falls_back() {
    // More than three fields is invalid input and reads as one minute.
    assert_eq!(Time::parse("1:2:3:4").as_secs, 60);
}

#[test]
fn test_parse_empty_field_reads_zero() {
    assert_eq!(Time::parse(":30").as_secs, 30);
    assert_eq!(Time::parse("abc").as_secs, 0);
}

#[test]
fn test_format_parse_round_trip() {
    for s in ["5", "2:03", "1:02:03", "90:00", "999:59:59", " 1h2m ", ":"] {
        let once = Time::parse(s).format();
        let twice = Time::parse(&once).format();
        assert_eq!(Time::parse(&twice).format(), once);
    }
}

#[test]
fn test_add_and_subtract() {
    let a = Time::parse("0:50");
    let b = Time::parse("0:20");
    assert_eq!(a.add(&b).as_string, "00:01:10");
    assert_eq!(a.subtract(&b).as_string, "00:00:30");
}
