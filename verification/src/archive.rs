//! Loading an export: CSV text is split into rows of cells, the
//! header row is normalized, and every data row is decoded. Decoding
//! is all-or-nothing: one bad row fails the whole load, with the row
//! and the offending cell in the error.
use vstd::prelude::*;
use vstd::string::*;
use crate::headers::{fix_headers, normalize_headers};
use crate::records::{decode_row, spec_decode_row, ActivityModel, ActivitySummary, DecodeError, ErrorModel};
use crate::text::str_eq;

verus! {

/// The table of cells that the CSV reader yields for a text, row by
/// row, or nothing when the reader reports an error.
pub uninterp spec fn csv_table(s: Seq<char>) -> Option<Seq<Seq<Seq<char>>>>;

/// Relies on csv::ReaderBuilder and csv::Reader (headers off, ragged
/// rows allowed): what the reader yields for in-memory text depends on
/// the text alone; a reader error yields `None`.
#[verifier::external_body]
fn read_csv_table(text: &str) -> (r: Option<Vec<Vec<String>>>)
    ensures
        match r {
            Some(rows) => csv_table(text@) == Some(rows.deep_view()),
            None => csv_table(text@) is None,
        },
{
    let rdr = csv::ReaderBuilder::new().has_headers(false).flexible(true).from_reader(
        text.as_bytes(),
    );
    let mut rows: Vec<Vec<String>> = Vec::new();
    for rec in rdr.into_records() {
        match rec {
            Ok(sr) => rows.push(sr.iter().map(|f| f.to_string()).collect()),
            Err(_) => return None,
        }
    }
    Some(rows)
}

/// Why a load failed.
#[derive(Clone, Debug)]
pub enum LoadError {
    /// The CSV reader itself failed on the text.
    Csv,
    /// A data row failed to decode: its index (counting the header as
    /// row 0), its raw cells, and the failing field.
    Row { row: usize, cells: Vec<String>, err: DecodeError },
}

pub enum LoadErrorModel {
    Csv,
    Row { row: int, cells: Seq<Seq<char>>, err: ErrorModel },
}

impl View for LoadError {
    type V = LoadErrorModel;

    open spec fn view(&self) -> LoadErrorModel {
        match self {
            LoadError::Csv => LoadErrorModel::Csv,
            LoadError::Row { row, cells, err } => LoadErrorModel::Row {
                row: *row as int,
                cells: cells.deep_view(),
                err: err@,
            },
        }
    }
}

/// Decoding of the data rows from `i` on, under a normalized header.
pub open spec fn spec_decode_rows(hdr: Seq<Seq<char>>, rows: Seq<Seq<Seq<char>>>, i: int) -> Result<
    Seq<ActivityModel>,
    LoadErrorModel,
>
    decreases rows.len() - i,
{
    if i < 0 || i >= rows.len() {
        Ok(Seq::empty())
    } else {
        match spec_decode_row(hdr, rows[i]) {
            Err(e) => Err(LoadErrorModel::Row { row: i, cells: rows[i], err: e }),
            Ok(a) => match spec_decode_rows(hdr, rows, i + 1) {
                Err(e) => Err(e),
                Ok(rest) => Ok(seq![a] + rest),
            },
        }
    }
}

/// What loading activity CSV text yields: the typed records of every
/// data row under the normalized header, or the first failure. Text
/// with no rows at all yields no records.
pub open spec fn spec_load(t: Seq<char>) -> Result<Seq<ActivityModel>, LoadErrorModel> {
    match csv_table(t) {
        None => Err(LoadErrorModel::Csv),
        Some(rows) => if rows.len() == 0 {
            Ok(Seq::empty())
        } else {
            spec_decode_rows(normalize_headers(rows[0]), rows, 1)
        },
    }
}

/// An element-wise copy of a row of cells.
fn clone_cells(v: &Vec<String>) -> (r: Vec<String>)
    ensures
        r.deep_view() == v.deep_view(),
{
    let n = v.len();
    let mut r: Vec<String> = Vec::new();
    let mut i: usize = 0;
    while i < n
        invariant
            n == v@.len(),
            i <= n,
            r@.len() == i,
            forall|j: int| 0 <= j < i ==> r.deep_view()[j] == v.deep_view()[j],
        decreases n - i,
    {
        r.push(v[i].clone());
        i = i + 1;
    }
    assert(r.deep_view() =~= v.deep_view());
    r
}

proof fn lemma_decode_rows_ok(
    hdr: Seq<Seq<char>>,
    rows: Seq<Seq<Seq<char>>>,
    i: int,
    acc: Seq<ActivityModel>,
)
    requires
        1 <= i <= rows.len(),
        forall|j: int| i <= j < rows.len() ==> spec_decode_row(hdr, #[trigger] rows[j]) is Ok,
        acc.len() == rows.len() - i,
        forall|j: int|
            0 <= j < acc.len() ==> Ok::<_, ErrorModel>(#[trigger] acc[j]) == spec_decode_row(
                hdr,
                rows[i + j],
            ),
    ensures
        spec_decode_rows(hdr, rows, i) == Ok::<_, LoadErrorModel>(acc),
    decreases rows.len() - i,
{
    if i == rows.len() {
        assert(acc =~= Seq::<ActivityModel>::empty());
    } else {
        lemma_decode_rows_ok(hdr, rows, i + 1, acc.drop_first());
        let a = spec_decode_row(hdr, rows[i])->Ok_0;
        assert(Ok::<_, ErrorModel>(acc[0]) == spec_decode_row(hdr, rows[i]));
        assert(acc =~= seq![a] + acc.drop_first());
    }
}

proof fn lemma_decode_rows_err(
    hdr: Seq<Seq<char>>,
    rows: Seq<Seq<Seq<char>>>,
    i: int,
    bad: int,
    e: ErrorModel,
)
    requires
        1 <= i <= bad < rows.len(),
        forall|j: int| i <= j < bad ==> spec_decode_row(hdr, #[trigger] rows[j]) is Ok,
        spec_decode_row(hdr, rows[bad]) == Err::<ActivityModel, _>(e),
    ensures
        spec_decode_rows(hdr, rows, i) == Err::<Seq<ActivityModel>, _>(
            LoadErrorModel::Row { row: bad, cells: rows[bad], err: e },
        ),
    decreases bad - i,
{
    if i < bad {
        lemma_decode_rows_err(hdr, rows, i + 1, bad, e);
    }
}

/// Loads the contents of an activities CSV file: normalizes the
/// header row, decodes every data row, and either returns all records
/// or the first failure with its row and cell context.
#[verifier::rlimit(100)]
pub fn load_activities(text: &str) -> (r: Result<Vec<ActivitySummary>, LoadError>)
    ensures
        match r {
            Ok(v) => spec_load(text@) == Ok::<_, LoadErrorModel>(
                v@.map_values(|a: ActivitySummary| a@),
            ),
            Err(e) => spec_load(text@) == Err::<Seq<ActivityModel>, _>(e@),
        },
{
    let rows = match read_csv_table(text) {
        None => {
            return Err(LoadError::Csv);
        },
        Some(rows) => rows,
    };
    let ghost rv = rows.deep_view();
    let n = rows.len();
    proof {
        assert(rv.len() == n);
    }
    if n == 0 {
        let out: Vec<ActivitySummary> = Vec::new();
        assert(out@.map_values(|a: ActivitySummary| a@) =~= Seq::<ActivityModel>::empty());
        return Ok(out);
    }
    let hdr = fix_headers(&rows[0]);
    let ghost hv = hdr.deep_view();
    proof {
        assert(rows[0].deep_view() == rv[0]);
        assert(hv == normalize_headers(rv[0]));
    }
    let mut out: Vec<ActivitySummary> = Vec::new();
    let mut i: usize = 1;
    while i < n
        invariant
            1 <= i <= n,
            n == rows@.len(),
            rv == rows.deep_view(),
            hv == hdr.deep_view(),
            csv_table(text@) == Some(rv),
            rv.len() == n,
            hv == normalize_headers(rv[0]),
            out@.len() == i - 1,
            forall|j: int| 1 <= j < i ==> spec_decode_row(hv, #[trigger] rv[j]) is Ok,
            forall|j: int|
                0 <= j < out@.len() ==> Ok::<_, ErrorModel>(#[trigger] out@[j]@) == spec_decode_row(
                    hv,
                    rv[1 + j],
                ),
        decreases n - i,
    {
        proof {
            assert(rows@[i as int].deep_view() == rv[i as int]);
        }
        match decode_row(&hdr, &rows[i]) {
            Ok(a) => {
                out.push(a);
            },
            Err(e) => {
                proof {
                    lemma_decode_rows_err(hv, rv, 1, i as int, e@);
                    assert(spec_decode_rows(hv, rv, 1) == Err::<Seq<ActivityModel>, _>(
                        LoadErrorModel::Row { row: i as int, cells: rv[i as int], err: e@ },
                    ));
                    assert(csv_table(text@) == Some(rv));
                    assert(rv.len() > 0);
                    assert(spec_load(text@) == Err::<Seq<ActivityModel>, _>(
                        LoadErrorModel::Row { row: i as int, cells: rv[i as int], err: e@ },
                    ));
                }
                let cells = clone_cells(&rows[i]);
                proof {
                    assert(cells.deep_view() == rv[i as int]);
                }
                let le = LoadError::Row { row: i, cells, err: e };
                assert(le@ == LoadErrorModel::Row { row: i as int, cells: rv[i as int], err: e@ });
                return Err(le);
            },
        }
        i = i + 1;
    }
    proof {
        lemma_decode_rows_ok(hv, rv, 1, out@.map_values(|a: ActivitySummary| a@));
    }
    Ok(out)
}

/// The in-memory aggregate of one export directory.
pub struct Archive {
    pub activities: Vec<ActivitySummary>,
}

impl View for Archive {
    type V = Seq<ActivityModel>;

    open spec fn view(&self) -> Seq<ActivityModel> {
        self.activities@.map_values(|a: ActivitySummary| a@)
    }
}

impl Default for Archive {
    /// An archive with no records.
    fn default() -> (r: Archive)
        ensures
            r@ == Seq::<ActivityModel>::empty(),
    {
        let a = Archive { activities: Vec::new() };
        assert(a@ =~= Seq::<ActivityModel>::empty());
        a
    }
}

impl Archive {
    /// Takes one directory entry by file name. The activities file is
    /// parsed and replaces the held records; entries with unrecognized
    /// names are ignored, so foreign files in the export directory are
    /// harmless.
    pub fn add_file(&mut self, name: &str, text: &str) -> (r: Result<(), LoadError>)
        ensures
            match r {
                Ok(_) => {
                    if name@ == "activities.csv"@ {
                        &&& spec_load(text@) is Ok
                        &&& final(self)@ == spec_load(text@)->Ok_0
                    } else {
                        final(self)@ == old(self)@
                    }
                },
                Err(e) => {
                    &&& name@ == "activities.csv"@
                    &&& spec_load(text@) == Err::<Seq<ActivityModel>, _>(e@)
                    &&& final(self)@ == old(self)@
                },
            },
    {
        if str_eq(name, "activities.csv") {
            match load_activities(text) {
                Ok(v) => {
                    self.activities = v;
                    Ok(())
                },
                Err(e) => Err(e),
            }
        } else {
            Ok(())
        }
    }
}

} // verus!
