//! Typed decoding of one data row against a normalized header:
//! column lookup by name, and per-field conversion with precise
//! error reporting.
use vstd::prelude::*;
use vstd::string::*;
use crate::dates::{date_repr, parse_date, DateTime};
use crate::digits::dec_rep;
use crate::numbers::{
    abs_of, decimal_milli, decimal_ok, digits_val, is_int_string, lemma_canonical_digits,
    parse_milli, parse_u128, parse_u32,
};
use crate::text::str_eq;

verus! {

/// The closed set of recognized activity kinds.
#[derive(Clone, Copy, Debug, PartialEq, Eq, Structural)]
pub enum ActivityType {
    AlpineSki,
    Hike,
    IceSkate,
    Ride,
    Run,
    Walk,
    WeightTraining,
    Workout,
    Yoga,
}

/// The activity kind named by a cell, if any; matching is exact and
/// case-sensitive.
pub open spec fn activity_of(s: Seq<char>) -> Option<ActivityType> {
    if s == "Alpine Ski"@ {
        Some(ActivityType::AlpineSki)
    } else if s == "Hike"@ {
        Some(ActivityType::Hike)
    } else if s == "Ice Skate"@ {
        Some(ActivityType::IceSkate)
    } else if s == "Ride"@ {
        Some(ActivityType::Ride)
    } else if s == "Run"@ {
        Some(ActivityType::Run)
    } else if s == "Walk"@ {
        Some(ActivityType::Walk)
    } else if s == "Weight Training"@ {
        Some(ActivityType::WeightTraining)
    } else if s == "Workout"@ {
        Some(ActivityType::Workout)
    } else if s == "Yoga"@ {
        Some(ActivityType::Yoga)
    } else {
        None
    }
}

/// Parses an activity-type cell. Any string outside the nine known
/// labels is rejected, never defaulted.
pub fn parse_activity(s: &str) -> (r: Option<ActivityType>)
    ensures
        r == activity_of(s@),
{
    if str_eq(s, "Alpine Ski") {
        Some(ActivityType::AlpineSki)
    } else if str_eq(s, "Hike") {
        Some(ActivityType::Hike)
    } else if str_eq(s, "Ice Skate") {
        Some(ActivityType::IceSkate)
    } else if str_eq(s, "Ride") {
        Some(ActivityType::Ride)
    } else if str_eq(s, "Run") {
        Some(ActivityType::Run)
    } else if str_eq(s, "Walk") {
        Some(ActivityType::Walk)
    } else if str_eq(s, "Weight Training") {
        Some(ActivityType::WeightTraining)
    } else if str_eq(s, "Workout") {
        Some(ActivityType::Workout)
    } else if str_eq(s, "Yoga") {
        Some(ActivityType::Yoga)
    } else {
        None
    }
}

/// One decoded activity record. Fractional quantities (distances in
/// kilometers, speeds in meters per second, heart rates in beats per
/// minute, elevations in meters) are carried as signed milli-units.
#[derive(Clone, Debug)]
pub struct ActivitySummary {
    pub id: u128,
    pub date: DateTime,
    pub name: String,
    pub activity_type: ActivityType,
    pub elapsed_seconds: u32,
    pub distance: i64,
    pub max_heart_rate: Option<i64>,
    pub avg_heart_rate: Option<i64>,
    pub filename: String,
    pub elapsed_seconds_secondary: Option<i64>,
    pub moving_seconds: Option<i64>,
    pub distance_secondary: i64,
    pub max_speed: Option<i64>,
    pub avg_speed: Option<i64>,
    pub elevation_low: Option<i64>,
    pub elevation_high: Option<i64>,
}

/// The mathematical image of a record: strings as character
/// sequences, everything else as-is.
pub struct ActivityModel {
    pub id: u128,
    pub date: DateTime,
    pub name: Seq<char>,
    pub activity_type: ActivityType,
    pub elapsed_seconds: u32,
    pub distance: i64,
    pub max_heart_rate: Option<i64>,
    pub avg_heart_rate: Option<i64>,
    pub filename: Seq<char>,
    pub elapsed_seconds_secondary: Option<i64>,
    pub moving_seconds: Option<i64>,
    pub distance_secondary: i64,
    pub max_speed: Option<i64>,
    pub avg_speed: Option<i64>,
    pub elevation_low: Option<i64>,
    pub elevation_high: Option<i64>,
}

impl View for ActivitySummary {
    type V = ActivityModel;

    open spec fn view(&self) -> ActivityModel {
        ActivityModel {
            id: self.id,
            date: self.date,
            name: self.name@,
            activity_type: self.activity_type,
            elapsed_seconds: self.elapsed_seconds,
            distance: self.distance,
            max_heart_rate: self.max_heart_rate,
            avg_heart_rate: self.avg_heart_rate,
            filename: self.filename@,
            elapsed_seconds_secondary: self.elapsed_seconds_secondary,
            moving_seconds: self.moving_seconds,
            distance_secondary: self.distance_secondary,
            max_speed: self.max_speed,
            avg_speed: self.avg_speed,
            elevation_low: self.elevation_low,
            elevation_high: self.elevation_high,
        }
    }
}

/// What went wrong with one cell.
#[derive(Clone, Copy, Debug, PartialEq, Eq, Structural)]
pub enum DecodeErrorKind {
    /// The header has no column of the required name.
    MissingColumn,
    /// The row is too short to reach the column.
    MissingCell,
    /// Not an unsigned integer in range.
    BadInt,
    /// Not a decimal number in range.
    BadDecimal,
    /// Not one of the nine activity labels.
    BadActivityType,
    /// Not a timestamp in the export's format.
    BadDate,
}

/// A decoding failure, carrying the column label, the column index
/// (the header length when the column is missing), and the raw cell.
#[derive(Clone, Debug)]
pub struct DecodeError {
    pub kind: DecodeErrorKind,
    pub label: String,
    pub column: usize,
    pub cell: String,
}

pub struct ErrorModel {
    pub kind: DecodeErrorKind,
    pub label: Seq<char>,
    pub column: int,
    pub cell: Seq<char>,
}

impl View for DecodeError {
    type V = ErrorModel;

    open spec fn view(&self) -> ErrorModel {
        ErrorModel {
            kind: self.kind,
            label: self.label@,
            column: self.column as int,
            cell: self.cell@,
        }
    }
}

/// Index of the first column named `label`, or -1.
pub open spec fn index_of_name(h: Seq<Seq<char>>, label: Seq<char>) -> int
    decreases h.len(),
{
    if h.len() == 0 {
        -1
    } else if h[0] == label {
        0
    } else {
        let r = index_of_name(h.drop_first(), label);
        if r < 0 {
            -1
        } else {
            r + 1
        }
    }
}

pub proof fn lemma_index_of_name(h: Seq<Seq<char>>, label: Seq<char>)
    ensures
        index_of_name(h, label) == -1 <==> (forall|j: int| 0 <= j < h.len() ==> h[j] != label),
        index_of_name(h, label) >= 0 ==> index_of_name(h, label) < h.len() && h[index_of_name(
            h,
            label,
        )] == label,
    decreases h.len(),
{
    if h.len() > 0 && h[0] != label {
        lemma_index_of_name(h.drop_first(), label);
        assert(forall|j: int| 1 <= j < h.len() ==> h[j] == h.drop_first()[j - 1]);
    }
}

/// The cell for `label`, or the error that stands for a missing
/// column or a row too short.
pub open spec fn spec_fetch(h: Seq<Seq<char>>, row: Seq<Seq<char>>, label: Seq<char>) -> Result<
    (Seq<char>, int),
    ErrorModel,
> {
    let i = index_of_name(h, label);
    if i < 0 {
        Err(
            ErrorModel {
                kind: DecodeErrorKind::MissingColumn,
                label: label,
                column: h.len() as int,
                cell: Seq::empty(),
            },
        )
    } else if i >= row.len() {
        Err(
            ErrorModel {
                kind: DecodeErrorKind::MissingCell,
                label: label,
                column: i,
                cell: Seq::empty(),
            },
        )
    } else {
        Ok((row[i], i))
    }
}

pub open spec fn cell_error(
    kind: DecodeErrorKind,
    label: Seq<char>,
    column: int,
    cell: Seq<char>,
) -> ErrorModel {
    ErrorModel { kind: kind, label: label, column: column, cell: cell }
}

/// A required unsigned integer cell.
pub open spec fn spec_field_u128(h: Seq<Seq<char>>, row: Seq<Seq<char>>, label: Seq<char>) -> Result<
    u128,
    ErrorModel,
> {
    match spec_fetch(h, row, label) {
        Err(e) => Err(e),
        Ok((c, i)) => if is_int_string(c) && digits_val(c) <= u128::MAX {
            Ok(digits_val(c) as u128)
        } else {
            Err(cell_error(DecodeErrorKind::BadInt, label, i, c))
        },
    }
}

/// A required unsigned integer cell that must fit in a `u32`.
pub open spec fn spec_field_u32(h: Seq<Seq<char>>, row: Seq<Seq<char>>, label: Seq<char>) -> Result<
    u32,
    ErrorModel,
> {
    match spec_fetch(h, row, label) {
        Err(e) => Err(e),
        Ok((c, i)) => if is_int_string(c) && digits_val(c) <= u32::MAX {
            Ok(digits_val(c) as u32)
        } else {
            Err(cell_error(DecodeErrorKind::BadInt, label, i, c))
        },
    }
}

/// Whether a decimal cell parses into an `i64` of milli-units.
pub open spec fn milli_fits(c: Seq<char>) -> bool {
    decimal_ok(c) && abs_of(decimal_milli(c)) <= i64::MAX
}

/// A required decimal cell, in milli-units.
pub open spec fn spec_field_milli(h: Seq<Seq<char>>, row: Seq<Seq<char>>, label: Seq<char>) -> Result<
    i64,
    ErrorModel,
> {
    match spec_fetch(h, row, label) {
        Err(e) => Err(e),
        Ok((c, i)) => if milli_fits(c) {
            Ok(decimal_milli(c) as i64)
        } else {
            Err(cell_error(DecodeErrorKind::BadDecimal, label, i, c))
        },
    }
}

/// An optional decimal cell: empty decodes to absent; anything else
/// must parse.
pub open spec fn spec_field_milli_opt(
    h: Seq<Seq<char>>,
    row: Seq<Seq<char>>,
    label: Seq<char>,
) -> Result<Option<i64>, ErrorModel> {
    match spec_fetch(h, row, label) {
        Err(e) => Err(e),
        Ok((c, i)) => if c.len() == 0 {
            Ok(None)
        } else if milli_fits(c) {
            Ok(Some(decimal_milli(c) as i64))
        } else {
            Err(cell_error(DecodeErrorKind::BadDecimal, label, i, c))
        },
    }
}

/// A required timestamp cell.
pub open spec fn spec_field_date(h: Seq<Seq<char>>, row: Seq<Seq<char>>, label: Seq<char>) -> Result<
    DateTime,
    ErrorModel,
> {
    match spec_fetch(h, row, label) {
        Err(e) => Err(e),
        Ok((c, i)) => if exists|dt: DateTime| dt.wf() && c == date_repr(dt) {
            Ok(choose|dt: DateTime| dt.wf() && c == date_repr(dt))
        } else {
            Err(cell_error(DecodeErrorKind::BadDate, label, i, c))
        },
    }
}

/// A required activity-type cell.
pub open spec fn spec_field_activity(
    h: Seq<Seq<char>>,
    row: Seq<Seq<char>>,
    label: Seq<char>,
) -> Result<ActivityType, ErrorModel> {
    match spec_fetch(h, row, label) {
        Err(e) => Err(e),
        Ok((c, i)) => match activity_of(c) {
            Some(t) => Ok(t),
            None => Err(cell_error(DecodeErrorKind::BadActivityType, label, i, c)),
        },
    }
}

/// The typed record a row decodes to under a header, or the first
/// failing field in declaration order.
#[verifier::opaque]
pub open spec fn spec_decode_row(h: Seq<Seq<char>>, row: Seq<Seq<char>>) -> Result<
    ActivityModel,
    ErrorModel,
> {
    match spec_field_u128(h, row, "Activity ID"@) {
        Err(e) => Err(e),
        Ok(id) => match spec_field_date(h, row, "Activity Date"@) {
            Err(e) => Err(e),
            Ok(date) => match spec_fetch(h, row, "Activity Name"@) {
                Err(e) => Err(e),
                Ok((name, _i)) => match spec_field_activity(h, row, "Activity Type"@) {
                    Err(e) => Err(e),
                    Ok(activity_type) => match spec_field_u32(h, row, "Elapsed Time"@) {
                        Err(e) => Err(e),
                        Ok(elapsed_seconds) => match spec_field_milli(h, row, "Distance"@) {
                            Err(e) => Err(e),
                            Ok(distance) => match spec_field_milli_opt(h, row, "Max Heart Rate"@) {
                                Err(e) => Err(e),
                                Ok(max_heart_rate) => match spec_field_milli_opt(
                                    h,
                                    row,
                                    "Average Heart Rate"@,
                                ) {
                                    Err(e) => Err(e),
                                    Ok(avg_heart_rate) => match spec_fetch(h, row, "Filename"@) {
                                        Err(e) => Err(e),
                                        Ok((filename, _j)) => match spec_field_milli_opt(
                                            h,
                                            row,
                                            "Elapsed Time (2)"@,
                                        ) {
                                            Err(e) => Err(e),
                                            Ok(elapsed_seconds_secondary) => match spec_field_milli_opt(
                                                h,
                                                row,
                                                "Moving Time"@,
                                            ) {
                                                Err(e) => Err(e),
                                                Ok(moving_seconds) => match spec_field_milli(
                                                    h,
                                                    row,
                                                    "Distance (2)"@,
                                                ) {
                                                    Err(e) => Err(e),
                                                    Ok(distance_secondary) => match spec_field_milli_opt(
                                                        h,
                                                        row,
                                                        "Max Speed"@,
                                                    ) {
                                                        Err(e) => Err(e),
                                                        Ok(max_speed) => match spec_field_milli_opt(
                                                            h,
                                                            row,
                                                            "Average Speed"@,
                                                        ) {
                                                            Err(e) => Err(e),
                                                            Ok(avg_speed) => match spec_field_milli_opt(
                                                                h,
                                                                row,
                                                                "Elevation Low"@,
                                                            ) {
                                                                Err(e) => Err(e),
                                                                Ok(elevation_low) => match spec_field_milli_opt(
                                                                    h,
                                                                    row,
                                                                    "Elevation High"@,
                                                                ) {
                                                                    Err(e) => Err(e),
                                                                    Ok(elevation_high) => Ok(
                                                                        ActivityModel {
                                                                            id,
                                                                            date,
                                                                            name,
                                                                            activity_type,
                                                                            elapsed_seconds,
                                                                            distance,
                                                                            max_heart_rate,
                                                                            avg_heart_rate,
                                                                            filename,
                                                                            elapsed_seconds_secondary,
                                                                            moving_seconds,
                                                                            distance_secondary,
                                                                            max_speed,
                                                                            avg_speed,
                                                                            elevation_low,
                                                                            elevation_high,
                                                                        },
                                                                    ),
                                                                },
                                                            },
                                                        },
                                                    },
                                                },
                                            },
                                        },
                                    },
                                },
                            },
                        },
                    },
                },
            },
        },
    }
}

/// Round trip: a record decoded from a row re-serializes to the raw
/// cells it came from. The id cell, when written canonically (no
/// leading zeros), is exactly the decimal rendering of the decoded
/// id, and the date cell is exactly the rendering of the decoded
/// timestamp, which is well-formed.
#[verifier::rlimit(100)]
pub proof fn lemma_decode_round_trip(h: Seq<Seq<char>>, row: Seq<Seq<char>>, a: ActivityModel)
    requires
        spec_decode_row(h, row) == Ok::<_, ErrorModel>(a),
        ({
            let c = row[index_of_name(h, "Activity ID"@)];
            c.len() == 1 || c[0] != '0'
        }),
    ensures
        row[index_of_name(h, "Activity ID"@)] == dec_rep(a.id as nat),
        a.date.wf(),
        row[index_of_name(h, "Activity Date"@)] == date_repr(a.date),
{
    reveal(spec_decode_row);
    let ci = row[index_of_name(h, "Activity ID"@)];
    assert(spec_field_u128(h, row, "Activity ID"@) == Ok::<_, ErrorModel>(a.id));
    assert(is_int_string(ci) && digits_val(ci) == a.id);
    lemma_canonical_digits(ci);
    let cd = row[index_of_name(h, "Activity Date"@)];
    assert(spec_field_date(h, row, "Activity Date"@) == Ok::<_, ErrorModel>(a.date));
    let picked = choose|dt: DateTime| dt.wf() && cd == date_repr(dt);
    assert(picked.wf() && cd == date_repr(picked));
}

/// First column with the given name.
pub fn find_col(headers: &Vec<String>, label: &str) -> (r: Option<usize>)
    ensures
        match r {
            Some(i) => index_of_name(headers.deep_view(), label@) == i,
            None => index_of_name(headers.deep_view(), label@) == -1,
        },
{
    let ghost hv = headers.deep_view();
    proof {
        lemma_index_of_name(hv, label@);
    }
    let n = headers.len();
    let mut i: usize = 0;
    while i < n
        invariant
            n == headers@.len(),
            hv == headers.deep_view(),
            i <= n,
            forall|j: int| 0 <= j < i ==> hv[j] != label@,
        decreases n - i,
    {
        let hit = str_eq(headers[i].as_str(), label);
        assert(hv[i as int] == headers@[i as int]@);
        if hit {
            proof {
                lemma_index_of_prefix(hv, label@, i as int);
            }
            return Some(i);
        }
        i = i + 1;
    }
    None
}

/// If every earlier entry differs and entry `i` matches, `i` is the
/// first match.
proof fn lemma_index_of_prefix(h: Seq<Seq<char>>, label: Seq<char>, i: int)
    requires
        0 <= i < h.len(),
        h[i] == label,
        forall|j: int| 0 <= j < i ==> h[j] != label,
    ensures
        index_of_name(h, label) == i,
    decreases i,
{
    if i == 0 {
    } else {
        assert(forall|j: int| 0 <= j < i - 1 ==> h.drop_first()[j] == h[j + 1]);
        lemma_index_of_prefix(h.drop_first(), label, i - 1);
    }
}

/// Fetches the cell under a required column.
fn fetch(headers: &Vec<String>, row: &Vec<String>, label: &str) -> (r: Result<
    (String, usize),
    DecodeError,
>)
    ensures
        match r {
            Ok((c, i)) => spec_fetch(headers.deep_view(), row.deep_view(), label@) == Ok::<
                _,
                ErrorModel,
            >((c@, i as int)),
            Err(e) => spec_fetch(headers.deep_view(), row.deep_view(), label@) == Err::<
                (Seq<char>, int),
                _,
            >(e@),
        },
{
    let ghost hv = headers.deep_view();
    let ghost rv = row.deep_view();
    proof {
        lemma_index_of_name(hv, label@);
    }
    match find_col(headers, label) {
        None => Err(
            DecodeError {
                kind: DecodeErrorKind::MissingColumn,
                label: String::from_str(label),
                column: headers.len(),
                cell: String::new(),
            },
        ),
        Some(i) => {
            if i >= row.len() {
                Err(
                    DecodeError {
                        kind: DecodeErrorKind::MissingCell,
                        label: String::from_str(label),
                        column: i,
                        cell: String::new(),
                    },
                )
            } else {
                let c = row[i].clone();
                assert(c@ == rv[i as int]);
                Ok((c, i))
            }
        },
    }
}

fn bad_cell(kind: DecodeErrorKind, label: &str, column: usize, cell: String) -> (r: DecodeError)
    ensures
        r@ == cell_error(kind, label@, column as int, cell@),
{
    DecodeError { kind, label: String::from_str(label), column, cell }
}

/// Decodes a required unsigned 128-bit integer field.
fn field_u128(headers: &Vec<String>, row: &Vec<String>, label: &str) -> (r: Result<
    u128,
    DecodeError,
>)
    ensures
        match r {
            Ok(v) => spec_field_u128(headers.deep_view(), row.deep_view(), label@) == Ok::<
                _,
                ErrorModel,
            >(v),
            Err(e) => spec_field_u128(headers.deep_view(), row.deep_view(), label@) == Err::<
                u128,
                _,
            >(e@),
        },
{
    match fetch(headers, row, label) {
        Err(e) => Err(e),
        Ok((c, i)) => match parse_u128(c.as_str()) {
            Some(v) => Ok(v),
            None => Err(bad_cell(DecodeErrorKind::BadInt, label, i, c)),
        },
    }
}

/// Decodes a required unsigned 32-bit integer field.
fn field_u32(headers: &Vec<String>, row: &Vec<String>, label: &str) -> (r: Result<u32, DecodeError>)
    ensures
        match r {
            Ok(v) => spec_field_u32(headers.deep_view(), row.deep_view(), label@) == Ok::<
                _,
                ErrorModel,
            >(v),
            Err(e) => spec_field_u32(headers.deep_view(), row.deep_view(), label@) == Err::<u32, _>(
                e@,
            ),
        },
{
    match fetch(headers, row, label) {
        Err(e) => Err(e),
        Ok((c, i)) => match parse_u32(c.as_str()) {
            Some(v) => Ok(v),
            None => Err(bad_cell(DecodeErrorKind::BadInt, label, i, c)),
        },
    }
}

/// Decodes a required decimal field into milli-units.
fn field_milli(headers: &Vec<String>, row: &Vec<String>, label: &str) -> (r: Result<
    i64,
    DecodeError,
>)
    ensures
        match r {
            Ok(v) => spec_field_milli(headers.deep_view(), row.deep_view(), label@) == Ok::<
                _,
                ErrorModel,
            >(v),
            Err(e) => spec_field_milli(headers.deep_view(), row.deep_view(), label@) == Err::<
                i64,
                _,
            >(e@),
        },
{
    match fetch(headers, row, label) {
        Err(e) => Err(e),
        Ok((c, i)) => match parse_milli(c.as_str()) {
            Some(v) => Ok(v),
            None => Err(bad_cell(DecodeErrorKind::BadDecimal, label, i, c)),
        },
    }
}

/// Decodes an optional decimal field: an empty cell is absent.
fn field_milli_opt(headers: &Vec<String>, row: &Vec<String>, label: &str) -> (r: Result<
    Option<i64>,
    DecodeError,
>)
    ensures
        match r {
            Ok(v) => spec_field_milli_opt(headers.deep_view(), row.deep_view(), label@) == Ok::<
                _,
                ErrorModel,
            >(v),
            Err(e) => spec_field_milli_opt(headers.deep_view(), row.deep_view(), label@) == Err::<
                Option<i64>,
                _,
            >(e@),
        },
{
    match fetch(headers, row, label) {
        Err(e) => Err(e),
        Ok((c, i)) => {
            if c.as_str().is_empty() {
                Ok(None)
            } else {
                match parse_milli(c.as_str()) {
                    Some(v) => Ok(Some(v)),
                    None => Err(bad_cell(DecodeErrorKind::BadDecimal, label, i, c)),
                }
            }
        },
    }
}

/// Decodes the timestamp field.
fn field_date(headers: &Vec<String>, row: &Vec<String>, label: &str) -> (r: Result<
    DateTime,
    DecodeError,
>)
    ensures
        match r {
            Ok(v) => spec_field_date(headers.deep_view(), row.deep_view(), label@) == Ok::<
                _,
                ErrorModel,
            >(v),
            Err(e) => spec_field_date(headers.deep_view(), row.deep_view(), label@) == Err::<
                DateTime,
                _,
            >(e@),
        },
{
    match fetch(headers, row, label) {
        Err(e) => Err(e),
        Ok((c, i)) => match parse_date(c.as_str()) {
            Some(dt) => {
                proof {
                    let picked = choose|dtx: DateTime| dtx.wf() && c@ == date_repr(dtx);
                    crate::dates::lemma_date_repr_injective(dt, picked);
                }
                Ok(dt)
            },
            None => Err(bad_cell(DecodeErrorKind::BadDate, label, i, c)),
        },
    }
}

/// Decodes the activity-type field.
fn field_activity(headers: &Vec<String>, row: &Vec<String>, label: &str) -> (r: Result<
    ActivityType,
    DecodeError,
>)
    ensures
        match r {
            Ok(v) => spec_field_activity(headers.deep_view(), row.deep_view(), label@) == Ok::<
                _,
                ErrorModel,
            >(v),
            Err(e) => spec_field_activity(headers.deep_view(), row.deep_view(), label@) == Err::<
                ActivityType,
                _,
            >(e@),
        },
{
    match fetch(headers, row, label) {
        Err(e) => Err(e),
        Ok((c, i)) => match parse_activity(c.as_str()) {
            Some(t) => Ok(t),
            None => Err(bad_cell(DecodeErrorKind::BadActivityType, label, i, c)),
        },
    }
}

/// Decodes one data row against a normalized header. Lookup is by
/// column name, so extra or reordered columns are harmless; the first
/// failing field (in declaration order) is reported with its label,
/// column index, and raw cell.
pub fn decode_row(headers: &Vec<String>, row: &Vec<String>) -> (r: Result<
    ActivitySummary,
    DecodeError,
>)
    ensures
        match r {
            Ok(a) => spec_decode_row(headers.deep_view(), row.deep_view()) == Ok::<_, ErrorModel>(
                a@,
            ),
            Err(e) => spec_decode_row(headers.deep_view(), row.deep_view()) == Err::<
                ActivityModel,
                _,
            >(e@),
        },
{
    proof {
        reveal(spec_decode_row);
    }
    let id = match field_u128(headers, row, "Activity ID") {
        Ok(v) => v,
        Err(e) => {
            return Err(e);
        },
    };
    let date = match field_date(headers, row, "Activity Date") {
        Ok(v) => v,
        Err(e) => {
            return Err(e);
        },
    };
    let name = match fetch(headers, row, "Activity Name") {
        Ok((c, _i)) => c,
        Err(e) => {
            return Err(e);
        },
    };
    let activity_type = match field_activity(headers, row, "Activity Type") {
        Ok(v) => v,
        Err(e) => {
            return Err(e);
        },
    };
    let elapsed_seconds = match field_u32(headers, row, "Elapsed Time") {
        Ok(v) => v,
        Err(e) => {
            return Err(e);
        },
    };
    let distance = match field_milli(headers, row, "Distance") {
        Ok(v) => v,
        Err(e) => {
            return Err(e);
        },
    };
    let max_heart_rate = match field_milli_opt(headers, row, "Max Heart Rate") {
        Ok(v) => v,
        Err(e) => {
            return Err(e);
        },
    };
    let avg_heart_rate = match field_milli_opt(headers, row, "Average Heart Rate") {
        Ok(v) => v,
        Err(e) => {
            return Err(e);
        },
    };
    let filename = match fetch(headers, row, "Filename") {
        Ok((c, _i)) => c,
        Err(e) => {
            return Err(e);
        },
    };
    let elapsed_seconds_secondary = match field_milli_opt(headers, row, "Elapsed Time (2)") {
        Ok(v) => v,
        Err(e) => {
            return Err(e);
        },
    };
    let moving_seconds = match field_milli_opt(headers, row, "Moving Time") {
        Ok(v) => v,
        Err(e) => {
            return Err(e);
        },
    };
    let distance_secondary = match field_milli(headers, row, "Distance (2)") {
        Ok(v) => v,
        Err(e) => {
            return Err(e);
        },
    };
    let max_speed = match field_milli_opt(headers, row, "Max Speed") {
        Ok(v) => v,
        Err(e) => {
            return Err(e);
        },
    };
    let avg_speed = match field_milli_opt(headers, row, "Average Speed") {
        Ok(v) => v,
        Err(e) => {
            return Err(e);
        },
    };
    let elevation_low = match field_milli_opt(headers, row, "Elevation Low") {
        Ok(v) => v,
        Err(e) => {
            return Err(e);
        },
    };
    let elevation_high = match field_milli_opt(headers, row, "Elevation High") {
        Ok(v) => v,
        Err(e) => {
            return Err(e);
        },
    };
    Ok(
        ActivitySummary {
            id,
            date,
            name,
            activity_type,
            elapsed_seconds,
            distance,
            max_heart_rate,
            avg_heart_rate,
            filename,
            elapsed_seconds_secondary,
            moving_seconds,
            distance_secondary,
            max_speed,
            avg_speed,
            elevation_low,
            elevation_high,
        },
    )
}

} // verus!
