use omnitak::cot::{CotError, CotMessage, Point};
use omnitak::decimal::{parse_fixed_bytes, push_fixed};

fn sample_point() -> Point {
    // 37.7749, -122.4194, 10.0, 9999999.0, 9999999.0 in units of 1e-7
    Point {
        lat: 377_749_000,
        lon: -1_224_194_000,
        hae: 100_000_000,
        ce: 99_999_990_000_000,
        le: 99_999_990_000_000,
    }
}

#[test]
fn test_create_cot_message() {
    let point = sample_point();
    let msg = CotMessage::new("test-uid", "a-f-G-U-C", point);
    assert_eq!(msg.uid, "test-uid");
    assert_eq!(msg.event_type, "a-f-G-U-C");
    assert_eq!(msg.point.lat, 377_749_000);
}

#[test]
fn test_to_xml() {
    let point = sample_point();
    let msg = CotMessage::new("test-uid", "a-f-G-U-C", point);
    let xml = msg.to_xml().unwrap();
    assert!(xml.contains("uid=\"test-uid\""));
    assert!(xml.contains("type=\"a-f-G-U-C\""));
    assert!(xml.contains("lat=\"37.7749\""));
}

#[test]
fn test_roundtrip() {
    let point = sample_point();
    let original = CotMessage::new("test-uid", "a-f-G-U-C", point);
    let xml = original.to_xml().unwrap();
    let parsed = CotMessage::from_xml(&xml).unwrap();
    assert_eq!(parsed.uid, original.uid);
    assert_eq!(parsed.event_type, original.event_type);
    assert_eq!(parsed.point.lat, original.point.lat);
}

#[test]
fn round_trip_keeps_every_field() {
    let m = CotMessage::at("ANDROID-1", "a-f-G-U-C", sample_point(), 1_700_000_000_123)
        .with_detail("<contact callsign=\"ALPHA\"/>")
        .with_stale(1_700_000_300_456);
    let xml = m.to_xml().unwrap();
    assert!(xml.contains("time=\"2023-11-14T22:13:20.123Z\""));
    assert!(xml.contains("hae=\"10\""));
    assert!(xml.contains("ce=\"9999999\""));
    let p = CotMessage::from_xml(&xml).unwrap();
    assert_eq!(p.uid, m.uid);
    assert_eq!(p.event_type, m.event_type);
    assert_eq!(p.how, "m-g");
    assert_eq!(p.time, m.time);
    assert_eq!(p.start, m.start);
    assert_eq!(p.stale, m.stale);
    assert_eq!(p.point, m.point);
    assert_eq!(p.detail, m.detail);
}

#[test]
fn new_event_is_stale_a_minute_later() {
    let m = CotMessage::at("u", "t", sample_point(), 1_000);
    assert_eq!(m.start, 1_000);
    assert_eq!(m.stale, 61_000);
    assert_eq!(m.how, "m-g");
    assert!(m.detail.is_none());
    let r = CotMessage::with_random_uid("a-f-G", sample_point());
    assert_eq!(r.uid.len(), 36);
}

#[test]
fn missing_uid_is_bad_format() {
    let xml = "<event type=\"a\" time=\"2020-01-01T00:00:00Z\"/>";
    assert_eq!(CotMessage::from_xml(xml).unwrap_err(), CotError::BadFormat);
}

#[test]
fn bad_point_number_is_bad_number() {
    let xml = "<event uid=\"u\" type=\"t\" how=\"h\" time=\"2020-01-01T00:00:00Z\" start=\"2020-01-01T00:00:00Z\" stale=\"2020-01-01T00:01:00Z\"><point lat=\"north\" lon=\"1\" hae=\"0\" ce=\"0\" le=\"0\"/></event>";
    assert_eq!(CotMessage::from_xml(xml).unwrap_err(), CotError::BadNumber);
}

#[test]
fn time_without_zone_is_bad_time() {
    let xml = "<event uid=\"u\" type=\"t\" time=\"2020-01-01T00:00:00\" start=\"2020-01-01T00:00:00Z\" stale=\"2020-01-01T00:01:00Z\"><point lat=\"1\" lon=\"1\" hae=\"0\" ce=\"0\" le=\"0\"/></event>";
    assert_eq!(CotMessage::from_xml(xml).unwrap_err(), CotError::BadTime);
}

#[test]
fn missing_how_defaults_and_detail_is_verbatim() {
    let xml = "<event uid=\"u\" type=\"t\" time=\"2020-01-01T00:00:00Z\" start=\"2020-01-01T00:00:00Z\" stale=\"2020-01-01T00:01:00+00:00\"><point lat=\"-0.5\" lon=\"+2.25\" hae=\"3.\" ce=\".5\" le=\"1.123456789\"/><detail><a b=\"c\"/></detail></event>";
    let m = CotMessage::from_xml(xml).unwrap();
    assert_eq!(m.how, "m-g");
    assert_eq!(m.stale - m.start, 60_000);
    assert_eq!(m.point.lat, -5_000_000);
    assert_eq!(m.point.lon, 22_500_000);
    assert_eq!(m.point.hae, 30_000_000);
    assert_eq!(m.point.ce, 5_000_000);
    assert_eq!(m.point.le, 11_234_567);
    assert_eq!(m.detail, Some("<a b=\"c\"/>".to_string()));
}

#[test]
fn fixed_point_text() {
    let mut v = Vec::new();
    push_fixed(&mut v, -1_224_194_000);
    assert_eq!(v, b"-122.4194".to_vec());
    let mut z = Vec::new();
    push_fixed(&mut z, 0);
    assert_eq!(z, b"0".to_vec());
    let mut s = Vec::new();
    push_fixed(&mut s, -5);
    assert_eq!(s, b"-0.0000005".to_vec());
    assert_eq!(parse_fixed_bytes(b"-0.0000005"), Some(-5));
    assert_eq!(parse_fixed_bytes(b"1e5"), None);
    assert_eq!(parse_fixed_bytes(b"."), None);
    assert_eq!(parse_fixed_bytes(b"922337203685.4775807"), Some(i64::MAX));
    assert_eq!(parse_fixed_bytes(b"922337203685.4775808"), None);
    assert_eq!(parse_fixed_bytes(b"-922337203685.4775808"), Some(i64::MIN));
}

#[test]
fn event_summary_line() {
    let m = CotMessage::at("test-uid", "a-f-G-U-C", sample_point(), 0);
    assert_eq!(m.to_string(), "CoT[uid=test-uid, type=a-f-G-U-C, lat=37.7749, lon=-122.4194]");
}
