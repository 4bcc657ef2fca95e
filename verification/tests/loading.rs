use activity_trends::archive::{load_activities, Archive, LoadError};
use activity_trends::cli::do_login;
use activity_trends::dates::{check_datetime, render_date, DateTime};
use activity_trends::digits::format_u128;
use activity_trends::localtime::local_date_cell;
use activity_trends::records::{decode_row, ActivitySummary, ActivityType, DecodeErrorKind};
use activity_trends::trend::{metric_labels, trend_row, trend_rows, MetricType};

const HEADER: &str = "Activity ID,Activity Date,Activity Name,Activity Type,Elapsed Time,Distance,Max Heart Rate,Average Heart Rate,Filename,Elapsed Time,Moving Time,Distance,Max Speed,Average Speed,Elevation Low,Elevation High";

fn run_row() -> String {
    "123,\"Dec 26, 2014, 8:02:53 PM\",Morning Run,Run,3661,5.2,180,150,runs/a.fit,3661,3500.5,5.19,3.5,2.0,10.5,87.2".to_string()
}

fn ride_row() -> String {
    "124,\"Jan 7, 2024, 1:34:17 AM\",Evening Ride,Ride,7200,20.0,,,rides/b.fit,7200,7000,19.9,,,,".to_string()
}

fn export_text() -> String {
    format!("{}\n{}\n{}\n", HEADER, run_row(), ride_row())
}

#[test]
fn load_two_records() {
    let acts = load_activities(&export_text()).unwrap();
    assert_eq!(2, acts.len());
    let a = &acts[0];
    assert_eq!(123, a.id);
    assert_eq!(
        DateTime { year: 2014, month: 12, day: 26, hour: 20, minute: 2, second: 53 },
        a.date
    );
    assert_eq!("Morning Run", a.name.as_str());
    assert_eq!(ActivityType::Run, a.activity_type);
    assert_eq!(3661, a.elapsed_seconds);
    assert_eq!(5200, a.distance);
    assert_eq!(Some(180_000), a.max_heart_rate);
    assert_eq!(Some(150_000), a.avg_heart_rate);
    assert_eq!("runs/a.fit", a.filename.as_str());
    assert_eq!(Some(3_661_000), a.elapsed_seconds_secondary);
    assert_eq!(Some(3_500_500), a.moving_seconds);
    assert_eq!(5190, a.distance_secondary);
    assert_eq!(Some(3500), a.max_speed);
    assert_eq!(Some(2000), a.avg_speed);
    assert_eq!(Some(10_500), a.elevation_low);
    assert_eq!(Some(87_200), a.elevation_high);
    let b = &acts[1];
    assert_eq!(ActivityType::Ride, b.activity_type);
    assert_eq!(None, b.max_heart_rate);
    assert_eq!(None, b.avg_heart_rate);
    assert_eq!(None, b.max_speed);
    assert_eq!(None, b.avg_speed);
    assert_eq!(None, b.elevation_low);
    assert_eq!(None, b.elevation_high);
}

#[test]
fn quoted_cells_pass_through_csv() {
    // The date cell holds commas; the name holds a quoted comma too.
    let text = format!("{}\n{}\n", HEADER,
        "1,\"Dec 26, 2014, 8:02:53 PM\",\"Run, morning\",Run,60,1.0,,,f.fit,60,60,1.0,,,,");
    let acts = load_activities(&text).unwrap();
    assert_eq!(1, acts.len());
    assert_eq!("Run, morning", acts[0].name.as_str());
}

#[test]
fn empty_text_loads_nothing() {
    let acts = load_activities("").unwrap();
    assert_eq!(0, acts.len());
}

#[test]
fn short_row_names_missing_label() {
    // One cell fewer than the header: the last column cannot be read.
    let text = format!("{}\n{}\n", HEADER,
        "123,\"Dec 26, 2014, 8:02:53 PM\",Morning Run,Run,3661,5.2,180,150,runs/a.fit,3661,3500.5,5.19,3.5,2.0,10.5");
    match load_activities(&text) {
        Err(LoadError::Row { row, err, .. }) => {
            assert_eq!(1, row);
            assert_eq!(DecodeErrorKind::MissingCell, err.kind);
            assert_eq!("Elevation High", err.label.as_str());
            assert_eq!(15, err.column);
        }
        other => panic!("expected a row error, got {:?}", other.map(|v| v.len())),
    }
}

#[test]
fn missing_column_is_reported() {
    let text = "Activity ID,Activity Date\n1,\"Dec 26, 2014, 8:02:53 PM\"\n";
    match load_activities(text) {
        Err(LoadError::Row { err, .. }) => {
            assert_eq!(DecodeErrorKind::MissingColumn, err.kind);
            assert_eq!("Activity Name", err.label.as_str());
        }
        other => panic!("expected a row error, got {:?}", other.map(|v| v.len())),
    }
}

fn row_with(id: &str, date: &str, ty: &str, elapsed: &str, distance: &str) -> String {
    format!(
        "{},\"{}\",Name,{},{},{},,,f.fit,,,1.0,,,,",
        id, date, ty, elapsed, distance
    )
}

fn expect_kind(text: &str, kind: DecodeErrorKind, label: &str) {
    match load_activities(text) {
        Err(LoadError::Row { err, .. }) => {
            assert_eq!(kind, err.kind);
            assert_eq!(label, err.label.as_str());
        }
        other => panic!("expected {:?}, got {:?}", kind, other.map(|v| v.len())),
    }
}

#[test]
fn bad_cells_name_their_kind() {
    let date = "Dec 26, 2014, 8:02:53 PM";
    expect_kind(
        &format!("{}\n{}\n", HEADER, row_with("x1", date, "Run", "60", "1.0")),
        DecodeErrorKind::BadInt,
        "Activity ID",
    );
    expect_kind(
        &format!("{}\n{}\n", HEADER, row_with("1", "Dec 26 2014 8:02:53 PM", "Run", "60", "1.0")),
        DecodeErrorKind::BadDate,
        "Activity Date",
    );
    expect_kind(
        &format!("{}\n{}\n", HEADER, row_with("1", date, "Jog", "60", "1.0")),
        DecodeErrorKind::BadActivityType,
        "Activity Type",
    );
    expect_kind(
        &format!("{}\n{}\n", HEADER, row_with("1", date, "Run", "6.5", "1.0")),
        DecodeErrorKind::BadInt,
        "Elapsed Time",
    );
    expect_kind(
        &format!("{}\n{}\n", HEADER, row_with("1", date, "Run", "60", "fast")),
        DecodeErrorKind::BadDecimal,
        "Distance",
    );
}

#[test]
fn decode_round_trips_id_and_date() {
    let headers: Vec<String> = HEADER.split(',').map(|s| s.to_string()).collect();
    let headers = activity_trends::headers::fix_headers(&headers);
    let row: Vec<String> = vec![
        "9007199254740993".to_string(),
        "Dec 26, 2014, 8:02:53 PM".to_string(),
        "Morning Run".to_string(),
        "Run".to_string(),
        "3661".to_string(),
        "5.2".to_string(),
        "".to_string(),
        "".to_string(),
        "runs/a.fit".to_string(),
        "".to_string(),
        "".to_string(),
        "5.19".to_string(),
        "".to_string(),
        "".to_string(),
        "".to_string(),
        "".to_string(),
    ];
    let a = decode_row(&headers, &row).unwrap();
    assert_eq!(row[0], format_u128(a.id));
    assert_eq!(row[1], render_date(&a.date));
}

fn archive_of(text: &str) -> Archive {
    let mut archive = Archive::default();
    archive.add_file("activities.csv", text).unwrap();
    archive
}

#[test]
fn end_to_end_duration_trend() {
    let archive = archive_of(&export_text());
    let runs = trend_rows(&archive, ActivityType::Run, MetricType::Duration);
    assert_eq!(1, runs.len());
    assert_eq!("58:20", runs[0].cells[0].as_str()); // 3500.5 s moving
    assert_eq!("61:01", runs[0].cells[1].as_str()); // 3661 s elapsed
    let hikes = trend_rows(&archive, ActivityType::Hike, MetricType::Duration);
    assert_eq!(0, hikes.len());
}

#[test]
fn unrecognized_files_are_ignored() {
    let mut archive = Archive::default();
    archive.add_file("media.csv", "not,even,csv\n\"").unwrap();
    archive.add_file("activities.csv", &export_text()).unwrap();
    assert_eq!(2, archive.activities.len());
}

#[test]
fn heart_rate_trend_skips_unmeasured_records() {
    let archive = archive_of(&export_text());
    let runs = trend_rows(&archive, ActivityType::Run, MetricType::HeartRate);
    assert_eq!(1, runs.len());
    assert_eq!(vec!["150", "180", "8:20/km", "4:45/km"], runs[0].cells);
    // the Ride has no heart rates: its row is skipped, not blanked
    let rides = trend_rows(&archive, ActivityType::Ride, MetricType::HeartRate);
    assert_eq!(0, rides.len());
}

#[test]
fn distance_and_elevation_cells() {
    let archive = archive_of(&export_text());
    let runs = trend_rows(&archive, ActivityType::Run, MetricType::Distance);
    assert_eq!(vec!["5.20 km", "58:20", "8:20/km", "4:45/km"], runs[0].cells);
    let rides = trend_rows(&archive, ActivityType::Ride, MetricType::Distance);
    assert_eq!(vec!["20.00 km", "116:40", "", ""], rides[0].cells);
    let lows = trend_rows(&archive, ActivityType::Run, MetricType::Elevation);
    assert_eq!(vec!["11 m", "87 m"], lows[0].cells);
    let ride_elev = trend_rows(&archive, ActivityType::Ride, MetricType::Elevation);
    assert_eq!(vec!["", ""], ride_elev[0].cells);
}

#[test]
fn trend_row_matches_dispatch() {
    let archive = archive_of(&export_text());
    let act: &ActivitySummary = &archive.activities[0];
    assert_eq!(
        trend_row(MetricType::Duration, act),
        activity_trends::trend::duration_trend_row(act)
    );
}

#[test]
fn metric_label_sets() {
    assert_eq!(vec!["moving", "elapsed"], metric_labels(MetricType::Duration));
    assert_eq!(
        vec!["distance", "duration", "avg pace", "fastest"],
        metric_labels(MetricType::Distance)
    );
    assert_eq!(
        vec!["avg hr", "max hr", "avg pace", "max pace"],
        metric_labels(MetricType::HeartRate)
    );
    assert_eq!(vec!["low", "high"], metric_labels(MetricType::Elevation));
}

#[test]
fn local_date_cell_shape() {
    let dt = DateTime { year: 2014, month: 12, day: 26, hour: 20, minute: 2, second: 53 };
    assert!(check_datetime(&dt));
    let cell = local_date_cell(&dt);
    let chars: Vec<char> = cell.chars().collect();
    assert_eq!(16, chars.len());
    assert_eq!('-', chars[4]);
    assert_eq!('-', chars[7]);
    assert_eq!(' ', chars[10]);
    assert_eq!(':', chars[13]);
    for i in [0, 1, 2, 3, 5, 6, 8, 9, 11, 12, 14, 15] {
        assert!(chars[i].is_ascii_digit());
    }
}

#[test]
fn login_is_unsupported() {
    assert_eq!(Err("login is not supported".to_string()), do_login());
}
