use rinse::api::items::{
    content_disposition, content_type, parse_range_header, plan_delivery, Delivery,
};

#[test]
fn ranges_are_parsed() {
    assert_eq!(parse_range_header("bytes=0-1023", 2000), Some((0, 1023)));
    assert_eq!(parse_range_header("bytes=1024-", 2000), Some((1024, 1999)));
    assert_eq!(parse_range_header("bytes=0-0", 1), Some((0, 0)));
    assert_eq!(parse_range_header("bytes=+5-+9", 100), Some((5, 9)));
    assert_eq!(parse_range_header("bytes=007-9", 100), Some((7, 9)));
}

#[test]
fn ranges_are_clamped_to_the_file() {
    assert_eq!(parse_range_header("bytes=10-5000", 2000), Some((10, 1999)));
    assert_eq!(parse_range_header("bytes=10-18446744073709551615", 2000), Some((10, 1999)));
}

#[test]
fn ranges_without_a_start_are_the_end_of_the_file() {
    assert_eq!(parse_range_header("bytes=-500", 2000), Some((1500, 1999)));
    assert_eq!(parse_range_header("bytes=-500", 1000), Some((500, 999)));
    assert_eq!(parse_range_header("bytes=-900", 1000), Some((100, 999)));
    assert_eq!(parse_range_header("bytes=-100", 1000), Some((900, 999)));
    assert_eq!(parse_range_header("bytes=-1", 1000), Some((999, 999)));
    assert_eq!(parse_range_header("bytes=-1000", 1000), Some((0, 999)));
    assert_eq!(parse_range_header("bytes=-5000", 1000), Some((0, 999)));
    assert_eq!(parse_range_header("bytes=-18446744073709551615", 1000), Some((0, 999)));
    assert_eq!(parse_range_header("bytes=-0", 1000), None);
    assert_eq!(parse_range_header("bytes=-500", 0), None);
    assert_eq!(parse_range_header("bytes=-", 1000), None);
    assert_eq!(parse_range_header("bytes=-x", 1000), None);
    match plan_delivery("completed", 2000, Some("bytes=-500")) {
        Delivery::Part { start, length, content_range } => {
            assert_eq!((start, length), (1500, 500));
            assert_eq!(content_range, "bytes 1500-1999/2000");
        }
        other => panic!("{:?}", other),
    }
}

#[test]
fn broken_ranges_are_refused() {
    for header in [
        "", "bytes", "bytes=", "bytes=5", "bytes=1-2-3", "bytes=a-5", "bytes=5-b", "bytes=9-5",
        "bytes=1000-", "bytes=18446744073709551616-", "bytes= 1-2", "items=0-5", "bytes=+-5",
    ] {
        assert_eq!(parse_range_header(header, 1000), None);
    }
    assert_eq!(parse_range_header("bytes=0-0", 0), None);
    assert_eq!(parse_range_header("bytes=0-", 0), None);
}

#[test]
fn completed_items_are_served() {
    assert!(matches!(plan_delivery("completed", 2000, None), Delivery::Whole { length: 2000 }));
    match plan_delivery("completed", 2000, Some("bytes=1024-")) {
        Delivery::Part { start, length, content_range } => {
            assert_eq!((start, length), (1024, 976));
            assert_eq!(content_range, "bytes 1024-1999/2000");
        }
        other => panic!("{:?}", other),
    }
    assert!(matches!(
        plan_delivery("completed", 2000, Some("bytes=3000-")),
        Delivery::Unsatisfiable { content_range } if content_range == "bytes */2000"
    ));
    match plan_delivery("pending", 2000, Some("bytes=0-")) {
        Delivery::Refused(refusal) => {
            assert_eq!(refusal.status, 409);
            assert_eq!(refusal.error, "Item not ready for download. Status: pending");
        }
        other => panic!("{:?}", other),
    }
}

#[test]
fn files_have_a_type_and_a_name() {
    assert_eq!(content_type("/storage/a.mp3"), "audio/mpeg");
    assert_eq!(content_type("/storage/A.FLAC"), "audio/flac");
    assert_eq!(content_type("/storage/a"), "application/octet-stream");
    assert_eq!(content_type("/storage/a.unknown-kind"), "application/octet-stream");
    assert_eq!(content_disposition("a.mp3"), "inline; filename=\"a.mp3\"");
}
