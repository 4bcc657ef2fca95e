//! The trend reporter: filters decoded records by activity type and
//! projects each into the formatted cells of the chosen metric, in
//! archive order.
use vstd::prelude::*;
use vstd::string::*;
use crate::archive::Archive;
use crate::dates::DateTime;
use crate::records::{ActivityModel, ActivitySummary, ActivityType};
use crate::render::{
    format_km, format_meters, format_whole, km_pace, km_repr, meters_repr, mmss, pace_repr,
    spec_mmss, whole_repr,
};

verus! {

/// The closed set of reportable metrics.
#[derive(Clone, Copy, Debug, PartialEq, Eq, Structural)]
pub enum MetricType {
    Duration,
    Distance,
    HeartRate,
    Elevation,
}

pub open spec fn spec_metric_labels(m: MetricType) -> Seq<Seq<char>> {
    match m {
        MetricType::Duration => seq!["moving"@, "elapsed"@],
        MetricType::Distance => seq!["distance"@, "duration"@, "avg pace"@, "fastest"@],
        MetricType::HeartRate => seq!["avg hr"@, "max hr"@, "avg pace"@, "max pace"@],
        MetricType::Elevation => seq!["low"@, "high"@],
    }
}

/// The column labels of a metric, in display order.
pub fn metric_labels(m: MetricType) -> (r: Vec<String>)
    ensures
        r.deep_view() == spec_metric_labels(m),
{
    let r: Vec<String> = match m {
        MetricType::Duration => vec![String::from_str("moving"), String::from_str("elapsed")],
        MetricType::Distance => vec![
            String::from_str("distance"),
            String::from_str("duration"),
            String::from_str("avg pace"),
            String::from_str("fastest"),
        ],
        MetricType::HeartRate => vec![
            String::from_str("avg hr"),
            String::from_str("max hr"),
            String::from_str("avg pace"),
            String::from_str("max pace"),
        ],
        MetricType::Elevation => vec![String::from_str("low"), String::from_str("high")],
    };
    assert(r.deep_view() =~= spec_metric_labels(m));
    r
}

/// Whole seconds of an optional milli-second duration, clamped the
/// way a float-to-u32 cast clamps: negatives to zero, and anything
/// past `u32::MAX` to `u32::MAX`.
pub open spec fn secs_of_milli(v: int) -> nat {
    if v <= 0 {
        0
    } else if v / 1000 > u32::MAX {
        u32::MAX as nat
    } else {
        (v / 1000) as nat
    }
}

/// A duration cell: blank when the value is absent.
pub open spec fn duration_cell(v: Option<i64>) -> Seq<char> {
    match v {
        Some(ms) => spec_mmss(secs_of_milli(ms as int)),
        None => Seq::empty(),
    }
}

/// A pace cell: blank when the speed is absent or not positive.
pub open spec fn pace_cell(v: Option<i64>) -> Seq<char> {
    match v {
        Some(s) => if s > 0 {
            pace_repr(s as int)
        } else {
            Seq::empty()
        },
        None => Seq::empty(),
    }
}

/// An elevation cell: blank when the value is absent.
pub open spec fn meters_cell(v: Option<i64>) -> Seq<char> {
    match v {
        Some(x) => meters_repr(x as int),
        None => Seq::empty(),
    }
}

/// The cells a record contributes under a metric, or nothing when the
/// record is skipped: heart-rate rows exist only where both heart
/// rates were recorded.
pub open spec fn spec_trend_row(m: MetricType, a: ActivityModel) -> Option<Seq<Seq<char>>> {
    match m {
        MetricType::Duration => Some(
            seq![duration_cell(a.moving_seconds), spec_mmss(a.elapsed_seconds as nat)],
        ),
        MetricType::Distance => Some(
            seq![
                km_repr(a.distance as int),
                duration_cell(a.moving_seconds),
                pace_cell(a.avg_speed),
                pace_cell(a.max_speed),
            ],
        ),
        MetricType::HeartRate => match (a.avg_heart_rate, a.max_heart_rate) {
            (Some(ahr), Some(mhr)) => Some(
                seq![
                    whole_repr(ahr as int),
                    whole_repr(mhr as int),
                    pace_cell(a.avg_speed),
                    pace_cell(a.max_speed),
                ],
            ),
            _ => None,
        },
        MetricType::Elevation => Some(
            seq![meters_cell(a.elevation_low), meters_cell(a.elevation_high)],
        ),
    }
}

fn duration_cell_x(v: &Option<i64>) -> (r: String)
    ensures
        r@ == duration_cell(*v),
{
    match v {
        None => String::new(),
        Some(ms) => {
            let s: u32 = if *ms <= 0 {
                0
            } else {
                let q: i64 = *ms / 1000;
                if q > 0xffff_ffff {
                    0xffff_ffffu32
                } else {
                    q as u32
                }
            };
            mmss(s)
        },
    }
}

fn pace_cell_x(v: &Option<i64>) -> (r: String)
    ensures
        r@ == pace_cell(*v),
{
    match v {
        None => String::new(),
        Some(s) => match km_pace(*s) {
            Some(p) => p,
            None => String::new(),
        },
    }
}

fn meters_cell_x(v: &Option<i64>) -> (r: String)
    ensures
        r@ == meters_cell(*v),
{
    match v {
        None => String::new(),
        Some(x) => format_meters(*x),
    }
}

/// The duration row of a record: moving time, then elapsed time.
pub fn duration_trend_row(act: &ActivitySummary) -> (r: Option<Vec<String>>)
    ensures
        match r {
            Some(cells) => spec_trend_row(MetricType::Duration, act@) == Some(cells.deep_view()),
            None => spec_trend_row(MetricType::Duration, act@) is None,
        },
{
    let cells: Vec<String> = vec![
        duration_cell_x(&act.moving_seconds),
        mmss(act.elapsed_seconds),
    ];
    assert(cells.deep_view() =~= spec_trend_row(MetricType::Duration, act@)->Some_0);
    Some(cells)
}

/// The distance row: distance, moving duration, average pace, and the
/// pace at top speed.
pub fn distance_trend_row(act: &ActivitySummary) -> (r: Option<Vec<String>>)
    ensures
        match r {
            Some(cells) => spec_trend_row(MetricType::Distance, act@) == Some(cells.deep_view()),
            None => spec_trend_row(MetricType::Distance, act@) is None,
        },
{
    let cells: Vec<String> = vec![
        format_km(act.distance),
        duration_cell_x(&act.moving_seconds),
        pace_cell_x(&act.avg_speed),
        pace_cell_x(&act.max_speed),
    ];
    assert(cells.deep_view() =~= spec_trend_row(MetricType::Distance, act@)->Some_0);
    Some(cells)
}

/// The heart-rate row, present only when both heart rates were
/// recorded: average, maximum, and the two paces.
pub fn heart_rate_trend_row(act: &ActivitySummary) -> (r: Option<Vec<String>>)
    ensures
        match r {
            Some(cells) => spec_trend_row(MetricType::HeartRate, act@) == Some(cells.deep_view()),
            None => spec_trend_row(MetricType::HeartRate, act@) is None,
        },
{
    match (&act.avg_heart_rate, &act.max_heart_rate) {
        (Some(ahr), Some(mhr)) => {
            let cells: Vec<String> = vec![
                format_whole(*ahr),
                format_whole(*mhr),
                pace_cell_x(&act.avg_speed),
                pace_cell_x(&act.max_speed),
            ];
            assert(cells.deep_view() =~= spec_trend_row(MetricType::HeartRate, act@)->Some_0);
            Some(cells)
        },
        _ => None,
    }
}

/// The elevation row: lowest and highest points.
pub fn elevation_trend_row(act: &ActivitySummary) -> (r: Option<Vec<String>>)
    ensures
        match r {
            Some(cells) => spec_trend_row(MetricType::Elevation, act@) == Some(cells.deep_view()),
            None => spec_trend_row(MetricType::Elevation, act@) is None,
        },
{
    let cells: Vec<String> = vec![
        meters_cell_x(&act.elevation_low),
        meters_cell_x(&act.elevation_high),
    ];
    assert(cells.deep_view() =~= spec_trend_row(MetricType::Elevation, act@)->Some_0);
    Some(cells)
}

/// The cells a record contributes under a metric.
pub fn trend_row(metric: MetricType, act: &ActivitySummary) -> (r: Option<Vec<String>>)
    ensures
        match r {
            Some(cells) => spec_trend_row(metric, act@) == Some(cells.deep_view()),
            None => spec_trend_row(metric, act@) is None,
        },
{
    match metric {
        MetricType::Duration => duration_trend_row(act),
        MetricType::Distance => distance_trend_row(act),
        MetricType::HeartRate => heart_rate_trend_row(act),
        MetricType::Elevation => elevation_trend_row(act),
    }
}

/// One row of a trend report: the record's timestamp and the metric's
/// cells.
pub struct TrendRow {
    pub date: DateTime,
    pub cells: Vec<String>,
}

impl View for TrendRow {
    type V = (DateTime, Seq<Seq<char>>);

    open spec fn view(&self) -> (DateTime, Seq<Seq<char>>) {
        (self.date, self.cells.deep_view())
    }
}

/// The rows of a trend report: one per record of the chosen activity
/// type that the metric does not skip, in archive order.
pub open spec fn spec_trend_rows(
    acts: Seq<ActivityModel>,
    ty: ActivityType,
    m: MetricType,
) -> Seq<(DateTime, Seq<Seq<char>>)>
    decreases acts.len(),
{
    if acts.len() == 0 {
        Seq::empty()
    } else {
        let rest = spec_trend_rows(acts.drop_first(), ty, m);
        if acts[0].activity_type == ty {
            match spec_trend_row(m, acts[0]) {
                Some(cells) => seq![(acts[0].date, cells)] + rest,
                None => rest,
            }
        } else {
            rest
        }
    }
}

/// Builds the trend report for one activity type and metric over the
/// whole archive, in archive order.
pub fn trend_rows(archive: &Archive, activity: ActivityType, metric: MetricType) -> (r: Vec<
    TrendRow,
>)
    ensures
        r@.map_values(|t: TrendRow| t@) == spec_trend_rows(archive@, activity, metric),
{
    let ghost av = archive@;
    let n = archive.activities.len();
    proof {
        assert(av.len() == n);
    }
    let mut out: Vec<TrendRow> = Vec::new();
    let mut i: usize = 0;
    proof {
        assert(av.subrange(0, n as int) =~= av);
        assert(out@.map_values(|t: TrendRow| t@) =~= Seq::<(DateTime, Seq<Seq<char>>)>::empty());
        assert(Seq::<(DateTime, Seq<Seq<char>>)>::empty() + spec_trend_rows(av, activity, metric)
            =~= spec_trend_rows(av, activity, metric));
    }
    while i < n
        invariant
            i <= n,
            n == archive.activities@.len(),
            av == archive@,
            av.len() == n,
            out@.map_values(|t: TrendRow| t@) + spec_trend_rows(
                av.subrange(i as int, n as int),
                activity,
                metric,
            ) == spec_trend_rows(av, activity, metric),
        decreases n - i,
    {
        let ghost pre = out@.map_values(|t: TrendRow| t@);
        let ghost suffix = av.subrange(i as int, n as int);
        proof {
            assert(suffix[0] == av[i as int]);
            assert(suffix.drop_first() =~= av.subrange(i + 1, n as int));
            assert(av[i as int] == archive.activities@[i as int]@);
        }
        let act = &archive.activities[i];
        if act.activity_type == activity {
            match trend_row(metric, act) {
                Some(cells) => {
                    let row = TrendRow { date: act.date, cells };
                    out.push(row);
                    proof {
                        assert(out@.map_values(|t: TrendRow| t@) =~= pre + seq![
                            (av[i as int].date, spec_trend_row(metric, av[i as int])->Some_0),
                        ]);
                        assert((pre + seq![
                            (av[i as int].date, spec_trend_row(metric, av[i as int])->Some_0),
                        ]) + spec_trend_rows(av.subrange(i + 1, n as int), activity, metric)
                            =~= spec_trend_rows(av, activity, metric));
                    }
                },
                None => {},
            }
        }
        i = i + 1;
    }
    proof {
        assert(av.subrange(n as int, n as int) =~= Seq::<ActivityModel>::empty());
        assert(out@.map_values(|t: TrendRow| t@) + Seq::<(DateTime, Seq<Seq<char>>)>::empty()
            =~= out@.map_values(|t: TrendRow| t@));
    }
    out
}

} // verus!
