//! The dataset of (x, y) integer pairs and its builder, which loads the
//! pairs from CSV text or from a flat sequence of values.

use crate::parse::ParseError;
use crate::parse::int_literal_value;
use crate::parse::is_i64_field;
use crate::parse::parse_i64;
use vstd::prelude::*;

verus! {

/// What the csv reader yields for given CSV text: the records after the
/// header row, each record a sequence of field byte-strings; `None` where
/// the reader reports malformed input.
pub uninterp spec fn csv_records_of(s: Seq<char>) -> Option<Seq<Seq<Seq<u8>>>>;

/// Relies on csv::Reader::from_reader (header row on, strict field counts)
/// and csv::StringRecord: yields each record's fields as raw bytes, or an
/// error where the reader reports malformed input.
#[verifier::external_body]
fn csv_rows(text: &str) -> (r: Result<Vec<Vec<Vec<u8>>>, ParseError>)
    ensures
        r is Ok <==> csv_records_of(text@) is Some,
        r is Ok ==> r->Ok_0.deep_view() == csv_records_of(text@)->Some_0,
{
    let mut rdr = csv::Reader::from_reader(text.as_bytes());
    let mut rows: Vec<Vec<Vec<u8>>> = Vec::new();
    for rec in rdr.records() {
        match rec {
            Ok(r) => rows.push(r.iter().map(|f| f.as_bytes().to_vec()).collect()),
            Err(_) => return Err(ParseError),
        }
    }
    Ok(rows)
}

/// Whether a record row provides the two required integer columns.
pub open spec fn row_ok(row: Seq<Seq<u8>>) -> bool {
    &&& row.len() >= 2
    &&& is_i64_field(row[0])
    &&& is_i64_field(row[1])
}

/// Whether every record row provides the two required integer columns.
pub open spec fn rows_ok(rows: Seq<Seq<Seq<u8>>>) -> bool {
    forall|i: int| 0 <= i < rows.len() ==> row_ok(#[trigger] rows[i])
}

/// The dataset described by record rows: the first two columns of each row,
/// in file order.
pub open spec fn dataset_of(rows: Seq<Seq<Seq<u8>>>) -> Seq<(i64, i64)> {
    Seq::new(
        rows.len(),
        |i: int|
            (int_literal_value(rows[i][0]) as i64, int_literal_value(rows[i][1]) as i64),
    )
}

/// The dataset built from a flat sequence by pairing consecutive values.
pub open spec fn paired(s: Seq<i64>) -> Seq<(i64, i64)> {
    Seq::new(s.len() / 2, |i: int| (s[2 * i], s[2 * i + 1]))
}

/// An ordered collection of (x, y) integer pairs, built once and immutable
/// thereafter.
#[derive(Debug, Clone)]
pub struct WorkSheet {
    data: Vec<(i64, i64)>,
}

impl View for WorkSheet {
    type V = Seq<(i64, i64)>;

    closed spec fn view(&self) -> Seq<(i64, i64)> {
        self.data@
    }
}

impl WorkSheet {
    /// The number of pairs.
    pub fn len(&self) -> (n: usize)
        ensures
            n == self@.len(),
    {
        self.data.len()
    }

    /// A copy of the pair at position `idx`.
    pub fn get(&self, idx: usize) -> (p: (i64, i64))
        requires
            idx < self@.len(),
        ensures
            p == self@[idx as int],
    {
        self.data[idx]
    }
}

/// Configuration for building a `WorkSheet`: CSV text, or a flat vector of
/// values to pair up. Each configuration call returns a builder that carries
/// prior settings forward.
pub struct WorkSheetBuilder<'a> {
    pub csv_data: Option<&'a str>,
    pub vec_data: Option<Vec<i64>>,
}

impl<'a> WorkSheetBuilder<'a> {
    /// A builder with no source configured; building it yields an empty
    /// dataset.
    pub fn new() -> (r: Self)
        ensures
            r.csv_data is None,
            r.vec_data is None,
    {
        WorkSheetBuilder { csv_data: None, vec_data: None }
    }

    /// Configures CSV text as the source.
    pub fn csv_data(self, csv_data: &'a str) -> (r: Self)
        ensures
            r.csv_data == Some(csv_data),
            r.vec_data == self.vec_data,
    {
        WorkSheetBuilder { csv_data: Some(csv_data), vec_data: self.vec_data }
    }

    /// Configures a flat vector of values as the source; consecutive values
    /// are paired up when the worksheet is built.
    pub fn vec_data(self, vec_data: Vec<i64>) -> (r: Self)
        ensures
            r.vec_data is Some,
            r.vec_data->Some_0@ == vec_data@,
            r.csv_data == self.csv_data,
    {
        WorkSheetBuilder { csv_data: self.csv_data, vec_data: Some(vec_data) }
    }

    /// Builds the dataset. CSV text takes precedence: each record must hold
    /// at least two columns whose first two parse as base-10 64-bit signed
    /// integers, and any malformed record fails the whole load with a
    /// `ParseError` and no partial dataset. Without CSV text, a configured
    /// flat vector of even length is paired up; with no source at all the
    /// dataset is empty.
    pub fn build(self) -> (r: Result<WorkSheet, ParseError>)
        ensures
            match self.csv_data {
                Some(text) => {
                    &&& r is Ok <==> (csv_records_of(text@) is Some && rows_ok(
                        csv_records_of(text@)->Some_0,
                    ))
                    &&& r is Ok ==> r->Ok_0@ == dataset_of(csv_records_of(text@)->Some_0)
                },
                None => match self.vec_data {
                    Some(v) => {
                        &&& r is Ok <==> v@.len() % 2 == 0
                        &&& r is Ok ==> r->Ok_0@ == paired(v@)
                    },
                    None => r is Ok && r->Ok_0@ == Seq::<(i64, i64)>::empty(),
                },
            },
    {
        match self.csv_data {
            Some(text) => {
                let rows: Vec<Vec<Vec<u8>>> = match csv_rows(text) {
                    Ok(rows) => rows,
                    Err(e) => {
                        return Err(e);
                    },
                };
                let ghost grows = csv_records_of(text@)->Some_0;
                let n: usize = rows.len();
                let mut data: Vec<(i64, i64)> = Vec::new();
                let mut i: usize = 0;
                while i < n
                    invariant
                        0 <= i <= n,
                        n == rows@.len(),
                        self.csv_data == Some(text),
                        csv_records_of(text@) is Some,
                        grows == csv_records_of(text@)->Some_0,
                        rows.deep_view() == grows,
                        data@.len() == i,
                        forall|k: int| 0 <= k < i ==> row_ok(#[trigger] grows[k]),
                        forall|k: int|
                            0 <= k < i ==> data@[k] == (
                                int_literal_value(#[trigger] grows[k][0]) as i64,
                                int_literal_value(grows[k][1]) as i64,
                            ),
                    decreases n - i,
                {
                    proof {
                        assert(grows[i as int] == rows@[i as int].deep_view());
                        assert(rows@[i as int].deep_view().len() == rows@[i as int]@.len());
                    }
                    let row = &rows[i];
                    if row.len() < 2 {
                        return Err(ParseError);
                    }
                    proof {
                        assert(grows[i as int][0] =~= rows@[i as int]@[0]@);
                        assert(grows[i as int][1] =~= rows@[i as int]@[1]@);
                    }
                    let x: i64 = match parse_i64(row[0].as_slice()) {
                        Ok(v) => v,
                        Err(e) => {
                            return Err(e);
                        },
                    };
                    let y: i64 = match parse_i64(row[1].as_slice()) {
                        Ok(v) => v,
                        Err(e) => {
                            return Err(e);
                        },
                    };
                    data.push((x, y));
                    i = i + 1;
                }
                proof {
                    assert(data@ =~= dataset_of(grows));
                }
                Ok(WorkSheet { data })
            },
            None => match self.vec_data {
                Some(v) => {
                    if v.len() % 2 != 0 {
                        return Err(ParseError);
                    }
                    let n: usize = v.len() / 2;
                    let mut data: Vec<(i64, i64)> = Vec::new();
                    let mut i: usize = 0;
                    while i < n
                        invariant
                            0 <= i <= n,
                            v@.len() <= usize::MAX,
                            v@.len() % 2 == 0,
                            n == v@.len() / 2,
                            data@.len() == i,
                            forall|k: int|
                                0 <= k < i ==> #[trigger] data@[k] == (v@[2 * k], v@[2 * k + 1]),
                        decreases n - i,
                    {
                        let x: i64 = v[2 * i];
                        let y: i64 = v[2 * i + 1];
                        data.push((x, y));
                        i = i + 1;
                    }
                    proof {
                        assert(data@ =~= paired(v@));
                    }
                    Ok(WorkSheet { data })
                },
                None => Ok(WorkSheet { data: Vec::new() }),
            },
        }
    }
}

} // verus!
