use activity_trends::dates::{parse_date, render_date, DateTime};
use activity_trends::digits::format_u128;
use activity_trends::headers::fix_headers;
use activity_trends::records::parse_activity;
use activity_trends::records::ActivityType;
use activity_trends::render::{format_km, format_meters, format_whole, km_pace, mmss};

#[test]
fn parse_time() {
    assert_eq!(
        Some(DateTime { year: 2014, month: 12, day: 26, hour: 20, minute: 2, second: 53 }),
        parse_date("Dec 26, 2014, 8:02:53 PM")
    );

    assert_eq!(
        Some(DateTime { year: 2024, month: 1, day: 7, hour: 1, minute: 34, second: 17 }),
        parse_date("Jan 7, 2024, 1:34:17 AM")
    );
}

#[test]
fn parse_time_rejects_missing_commas() {
    assert_eq!(None, parse_date("Dec 26 2014 8:02:53 PM"));
}

#[test]
fn parse_time_rejects_bad_dates() {
    assert_eq!(None, parse_date("Feb 30, 2014, 8:02:53 PM"));
    assert_eq!(None, parse_date("Dex 26, 2014, 8:02:53 PM"));
    assert_eq!(None, parse_date("Dec 26, 2014, 13:02:53 PM"));
    assert_eq!(None, parse_date(""));
}

#[test]
fn parse_time_noon_and_midnight() {
    assert_eq!(
        Some(DateTime { year: 2020, month: 6, day: 1, hour: 0, minute: 0, second: 0 }),
        parse_date("Jun 1, 2020, 12:00:00 AM")
    );
    assert_eq!(
        Some(DateTime { year: 2020, month: 6, day: 1, hour: 12, minute: 0, second: 0 }),
        parse_date("Jun 1, 2020, 12:00:00 PM")
    );
    assert_eq!(
        Some(DateTime { year: 2016, month: 2, day: 29, hour: 23, minute: 59, second: 59 }),
        parse_date("Feb 29, 2016, 11:59:59 PM")
    );
}

#[test]
fn render_parse_round_trip() {
    let dt = DateTime { year: 2014, month: 12, day: 26, hour: 20, minute: 2, second: 53 };
    let s = render_date(&dt);
    assert_eq!("Dec 26, 2014, 8:02:53 PM", s.as_str());
    assert_eq!(Some(dt), parse_date(s.as_str()));
}

#[test]
fn mmss_formats() {
    assert_eq!("0:00", mmss(0).as_str());
    assert_eq!("0:59", mmss(59).as_str());
    assert_eq!("61:01", mmss(3661).as_str());
}

#[test]
fn pace_formats() {
    // 2.0 m/s -> 1000 / 2.0 = 500 s/km -> "8:20/km"
    assert_eq!("8:20/km", km_pace(2000).unwrap().as_str());
    assert_eq!(None, km_pace(0));
    assert_eq!(None, km_pace(-5));
}

#[test]
fn quantity_formats() {
    assert_eq!("12.35 km", format_km(12345).as_str());
    assert_eq!("0.00 km", format_km(0).as_str());
    assert_eq!("-1.50 km", format_km(-1500).as_str());
    assert_eq!("142", format_whole(141900).as_str());
    assert_eq!("87 m", format_meters(86500).as_str());
    assert_eq!("0", format_u128(0).as_str());
    assert_eq!("98765432109876543210", format_u128(98765432109876543210).as_str());
}

#[test]
fn header_normalizer_example() {
    let raw: Vec<String> = vec![
        "Elapsed Time".to_string(),
        "Distance".to_string(),
        "Elapsed Time".to_string(),
        "Moving Time".to_string(),
        "Distance".to_string(),
    ];
    let fixed = fix_headers(&raw);
    let want = vec![
        "Elapsed Time".to_string(),
        "Distance".to_string(),
        "Elapsed Time (2)".to_string(),
        "Moving Time".to_string(),
        "Distance (2)".to_string(),
    ];
    assert_eq!(want, fixed);
}

#[test]
fn header_normalizer_chained_suffixes() {
    let raw: Vec<String> = vec!["A".to_string(), "A".to_string(), "A (2)".to_string()];
    let fixed = fix_headers(&raw);
    let want = vec!["A".to_string(), "A (2)".to_string(), "A (2) (2)".to_string()];
    assert_eq!(want, fixed);
    let again = fix_headers(&fixed);
    assert_eq!(fixed, again);
}

#[test]
fn activity_labels() {
    assert_eq!(Some(ActivityType::AlpineSki), parse_activity("Alpine Ski"));
    assert_eq!(Some(ActivityType::WeightTraining), parse_activity("Weight Training"));
    assert_eq!(Some(ActivityType::Run), parse_activity("Run"));
    assert_eq!(None, parse_activity("run"));
    assert_eq!(None, parse_activity("Jog"));
    assert_eq!(None, parse_activity(""));
}
