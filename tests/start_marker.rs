use kapt::marker::{latest_start_marker, parse_start_marker};

#[test]
fn reads_marker_from_ffmpeg_line() {
    let line = "  Duration: N/A, start: 1700000000.123456, bitrate: N/A";
    assert_eq!(parse_start_marker(line), Some(1700000000123));
}

#[test]
fn reads_bare_marker() {
    assert_eq!(parse_start_marker("start: 12.345678"), Some(12345));
}

#[test]
fn short_fraction_counts_as_microseconds() {
    assert_eq!(parse_start_marker("start: 5.25"), Some(5000));
}

#[test]
fn line_without_marker_gives_none() {
    assert_eq!(parse_start_marker("frame=  100 fps= 25 q=-1.0 size=N/A"), None);
    assert_eq!(parse_start_marker(""), None);
}

#[test]
fn marker_needs_both_numbers() {
    assert_eq!(parse_start_marker("start: 12"), None);
    assert_eq!(parse_start_marker("start: .5"), None);
    assert_eq!(parse_start_marker("start: 12."), None);
}

#[test]
fn leftmost_marker_counts() {
    assert_eq!(parse_start_marker("start: 1 start: 2.000000 start: 3.000000"), Some(2000));
    assert_eq!(parse_start_marker("start: 4.000000 start: 3.000000"), Some(4000));
}

#[test]
fn oversized_marker_gives_none() {
    let line = format!("start: {}.0", "9".repeat(40));
    assert_eq!(parse_start_marker(&line), None);
}

#[test]
fn later_marker_replaces_earlier() {
    let a = latest_start_marker(None, "start: 1.000000");
    assert_eq!(a, Some(1000));
    assert_eq!(latest_start_marker(a, "no marker here"), Some(1000));
    assert_eq!(latest_start_marker(a, "start: 2.000000"), Some(2000));
}
