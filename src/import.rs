//! The bulk-import pipeline: format dispatch, per-row validation and the
//! partial-success report.

use vstd::prelude::*;
use crate::multipart::{extract_file_part, file_part_of, is_multipart};
use crate::store::{views, TaskStore};
use crate::task::{concat, strings_view, Task, TaskCreate, TaskView};
use crate::text::{contains, is_substring, trim_spec, trim_str};

verus! {

/// The representations an import may arrive in.
#[derive(Clone, Copy, Debug, PartialEq, Eq, Structural)]
pub enum ImportFormat {
    /// A sequence of creation records.
    Structured,
    /// Delimited text with a header row.
    Delimited,
    /// A multipart payload holding delimited text in its `file` part.
    Multipart,
}

/// The format a content type announces: an empty one means structured input.
pub open spec fn format_of(ct: Seq<char>) -> Option<ImportFormat> {
    if ct.len() == 0 || is_substring("json"@, ct) {
        Some(ImportFormat::Structured)
    } else if is_substring("csv"@, ct) {
        Some(ImportFormat::Delimited)
    } else if is_substring("multipart/form-data"@, ct) {
        Some(ImportFormat::Multipart)
    } else {
        None
    }
}

/// The import format that a content type announces, if it names a supported one.
pub fn detect_format(content_type: &str) -> (r: Option<ImportFormat>)
    ensures
        r == format_of(content_type@),
{
    if content_type.is_empty() || contains(content_type, "json") {
        Some(ImportFormat::Structured)
    } else if contains(content_type, "csv") {
        Some(ImportFormat::Delimited)
    } else if contains(content_type, "multipart/form-data") {
        Some(ImportFormat::Multipart)
    } else {
        None
    }
}

/// Where a rejected candidate stood in the input.
#[derive(Clone, Copy, Debug, PartialEq, Eq, Structural)]
pub enum RowRef {
    /// Data row of delimited text, counted from 1 after the header.
    Row(usize),
    /// Position in a structured sequence, counted from 0.
    Index(usize),
}

/// A candidate that was not imported, and why.
#[derive(Clone, Debug)]
pub struct RowError {
    pub at: RowRef,
    pub message: String,
}

/// The candidates of an import, split into those to create and those rejected.
#[derive(Clone, Debug)]
pub struct Candidates {
    pub valid: Vec<TaskCreate>,
    pub errors: Vec<RowError>,
}

/// The outcome of an import that was accepted as a whole.
#[derive(Clone, Debug)]
pub struct ImportReport {
    pub imported: usize,
    pub failed: usize,
    pub errors: Vec<RowError>,
    pub tasks: Vec<Task>,
}

/// Why an import was rejected as a whole.
#[derive(Clone, Debug, PartialEq, Eq)]
pub enum ImportError {
    /// The content type names no supported format.
    UnsupportedFormat,
    /// The payload is not valid UTF-8.
    InvalidEncoding,
    /// The payload cannot be decoded at all.
    Malformed(String),
    /// The payload exceeds the size limit.
    PayloadTooLarge,
    /// A multipart import without a multipart content type and boundary.
    NotMultipart,
    /// A multipart payload without a `file` part.
    FilePartNotFound,
}

/// What the csv crate reads from `b`, header included: the fields of each
/// record, or nothing where a record cannot be read.
pub uninterp spec fn csv_records_of(b: Seq<u8>) -> Seq<Option<Seq<Seq<char>>>>;

/// The fields of a record that was read, or nothing.
pub open spec fn record_view(r: Result<Vec<String>, String>) -> Option<Seq<Seq<char>>> {
    match r {
        Ok(v) => Some(strings_view(v@)),
        Err(_) => None,
    }
}

/// The records read, as fields or nothing.
pub open spec fn records_view(r: Seq<Result<Vec<String>, String>>) -> Seq<Option<Seq<Seq<char>>>> {
    r.map_values(|x: Result<Vec<String>, String>| record_view(x))
}

/// Relies on `csv::Reader::records` (header not treated apart, default
/// dialect): every record of `b` in order, as its fields or as the error that
/// reading it met.
#[verifier::external_body]
fn read_csv_records(b: &[u8]) -> (r: Vec<Result<Vec<String>, String>>)
    ensures
        records_view(r@) == csv_records_of(b@),
{
    let mut rdr = csv::ReaderBuilder::new().has_headers(false).from_reader(b);
    rdr.records().map(|rec| match rec {
        Ok(fields) => Ok(fields.iter().map(|f| f.to_owned()).collect()),
        Err(e) => Err(e.to_string()),
    }).collect()
}

/// Relies on `std::str::from_utf8`: it accepts exactly the well-formed UTF-8 byte sequences.
#[verifier::external_body]
pub(crate) fn is_utf8(b: &[u8]) -> (r: bool)
    ensures
        r == vstd::utf8::valid_utf8(b@),
{
    std::str::from_utf8(b).is_ok()
}

/// The first position, from `i` on, of `name` in `h`.
pub open spec fn column_from(h: Seq<Seq<char>>, name: Seq<char>, i: int) -> Option<int>
    decreases h.len() - i,
{
    if i < 0 || i >= h.len() {
        None
    } else if h[i] == name {
        Some(i)
    } else {
        column_from(h, name, i + 1)
    }
}

/// The column that header `h` names `name`, the first if several do.
pub open spec fn column(h: Seq<Seq<char>>, name: Seq<char>) -> Option<int> {
    column_from(h, name, 0)
}

/// The title and description that a data row supplies, if it can be read and
/// has both columns.
pub open spec fn row_fields(h: Seq<Seq<char>>, rec: Option<Seq<Seq<char>>>) -> Option<(Seq<char>, Seq<char>)> {
    match rec {
        None => None,
        Some(f) => match (column(h, "title"@), column(h, "description"@)) {
            (Some(ti), Some(di)) => if ti < f.len() && di < f.len() {
                Some((f[ti], f[di]))
            } else {
                None
            },
            _ => None,
        },
    }
}

/// A data row yields a valid candidate.
pub open spec fn row_accepted(h: Seq<Seq<char>>, rec: Option<Seq<Seq<char>>>) -> bool {
    match row_fields(h, rec) {
        Some(c) => trim_spec(c.0).len() > 0,
        None => false,
    }
}

/// Why a readable data row is rejected.
pub open spec fn row_problem(h: Seq<Seq<char>>, f: Seq<Seq<char>>) -> Seq<char> {
    match column(h, "title"@) {
        Some(ti) if ti < f.len() => match column(h, "description"@) {
            Some(di) if di < f.len() => "title must not be empty"@,
            _ => "csv parse error: missing field `description`"@,
        },
        _ => "csv parse error: missing field `title`"@,
    }
}

/// The candidates of the accepted data rows, in order.
pub open spec fn accepted_rows(h: Seq<Seq<char>>, rows: Seq<Option<Seq<Seq<char>>>>) -> Seq<(Seq<char>, Seq<char>)>
    decreases rows.len(),
{
    if rows.len() == 0 {
        Seq::empty()
    } else {
        let prev = accepted_rows(h, rows.drop_last());
        if row_accepted(h, rows.last()) {
            prev.push(row_fields(h, rows.last())->0)
        } else {
            prev
        }
    }
}

/// The numbers, from 1, of the rejected data rows, in order.
pub open spec fn rejected_rows(h: Seq<Seq<char>>, rows: Seq<Option<Seq<Seq<char>>>>) -> Seq<int>
    decreases rows.len(),
{
    if rows.len() == 0 {
        Seq::empty()
    } else {
        let prev = rejected_rows(h, rows.drop_last());
        if row_accepted(h, rows.last()) {
            prev
        } else {
            prev.push(rows.len() as int)
        }
    }
}

/// Title and description of each creation record.
pub open spec fn creates_view(v: Seq<TaskCreate>) -> Seq<(Seq<char>, Seq<char>)> {
    v.map_values(|c: TaskCreate| (c.title@, c.description@))
}

/// Where each rejection stood.
pub open spec fn error_refs(e: Seq<RowError>) -> Seq<RowRef> {
    e.map_values(|x: RowError| x.at)
}

/// The row references of the given row numbers.
pub open spec fn row_refs(n: Seq<int>) -> Seq<RowRef> {
    n.map_values(|k: int| RowRef::Row(k as usize))
}

/// The first position of `name` in `h`.
fn find_column(h: &Vec<String>, name: &str) -> (r: Option<usize>)
    ensures
        r matches Some(i) ==> column(strings_view(h@), name@) == Some(i as int),
        r is None ==> column(strings_view(h@), name@) is None,
{
    let ghost hv = strings_view(h@);
    let target = name.to_owned();
    let mut i: usize = 0;
    while i < h.len()
        invariant
            i <= h@.len(),
            hv == strings_view(h@),
            target@ == name@,
            column(hv, name@) == column_from(hv, name@, i as int),
        decreases h@.len() - i,
    {
        if h[i] == target {
            return Some(i);
        }
        i += 1;
    }
    None
}

/// Split the records of delimited text into candidates and rejected rows: the
/// first record is the header, whose `title` and `description` columns each
/// later record must supply, with a title that holds more than whitespace.
/// Fails as a whole only when the header itself cannot be read.
pub fn plan_delimited(records: &Vec<Result<Vec<String>, String>>) -> (r: Result<Candidates, ImportError>)
    ensures
        records@.len() == 0 ==> (r matches Ok(c) && c.valid@.len() == 0 && c.errors@.len() == 0),
        records@.len() > 0 ==> (r is Err <==> records@[0] is Err),
        r matches Err(e) ==> e is Malformed,
        records@.len() > 0 && records@[0] is Ok ==> (r matches Ok(c) && {
            let h = strings_view(records@[0]->Ok_0@);
            let data = records_view(records@).drop_first();
            &&& creates_view(c.valid@) == accepted_rows(h, data)
            &&& error_refs(c.errors@) == row_refs(rejected_rows(h, data))
            &&& forall|i: int| 0 <= i < c.errors@.len() ==> {
                let n = rejected_rows(h, data)[i];
                &&& (records@[n] matches Ok(f) ==> (#[trigger] c.errors@[i]).message@ == row_problem(h, strings_view(f@)))
                &&& (records@[n] matches Err(m) ==> c.errors@[i].message@ == "csv parse error: "@ + m@)
            }
        }),
{
    if records.len() == 0 {
        return Ok(Candidates { valid: Vec::new(), errors: Vec::new() });
    }
    let header = match &records[0] {
        Ok(h) => h,
        Err(m) => {
            return Err(ImportError::Malformed(concat("csv parse error: ", m.as_str())));
        },
    };
    let ghost h = strings_view(header@);
    let ghost all = records_view(records@);
    let ghost data = all.drop_first();
    let title_col = find_column(header, "title");
    let desc_col = find_column(header, "description");
    let mut valid: Vec<TaskCreate> = Vec::new();
    let mut errors: Vec<RowError> = Vec::new();
    let mut k: usize = 1;
    while k < records.len()
        invariant
            1 <= k <= records@.len(),
            h == strings_view(records@[0]->Ok_0@),
            all == records_view(records@),
            data == all.drop_first(),
            title_col matches Some(i) ==> column(h, "title"@) == Some(i as int),
            title_col is None ==> column(h, "title"@) is None,
            desc_col matches Some(i) ==> column(h, "description"@) == Some(i as int),
            desc_col is None ==> column(h, "description"@) is None,
            creates_view(valid@) == accepted_rows(h, data.subrange(0, k - 1)),
            error_refs(errors@) == row_refs(rejected_rows(h, data.subrange(0, k - 1))),
            forall|i: int| 0 <= i < errors@.len() ==> {
                let n = rejected_rows(h, data.subrange(0, k - 1))[i];
                &&& 1 <= n < k
                &&& (records@[n] matches Ok(f) ==> (#[trigger] errors@[i]).message@ == row_problem(h, strings_view(f@)))
                &&& (records@[n] matches Err(m) ==> errors@[i].message@ == "csv parse error: "@ + m@)
            },
        decreases records@.len() - k,
    {
        let ghost before = data.subrange(0, k - 1);
        let ghost upto = data.subrange(0, k as int);
        assert(upto.drop_last() =~= before);
        assert(upto.last() == record_view(records@[k as int]));
        let ghost old_valid = valid@;
        let ghost old_errors = errors@;
        proof {
            rejected_rows_bound(h, before);
        }
        match &records[k] {
            Err(m) => {
                errors.push(RowError { at: RowRef::Row(k), message: concat("csv parse error: ", m.as_str()) });
            },
            Ok(fields) => {
                let picked = match (title_col, desc_col) {
                    (Some(ti), Some(di)) => if ti < fields.len() && di < fields.len() {
                        Some((ti, di))
                    } else {
                        None
                    },
                    _ => None,
                };
                match picked {
                    Some((ti, di)) => {
                        let title = fields[ti].clone();
                        if trim_str(title.as_str()).is_empty() {
                            errors.push(RowError { at: RowRef::Row(k), message: "title must not be empty".to_owned() });
                        } else {
                            valid.push(TaskCreate { title, description: fields[di].clone() });
                        }
                    },
                    None => {
                        let message = match title_col {
                            Some(ti) if ti < fields.len() => "csv parse error: missing field `description`".to_owned(),
                            _ => "csv parse error: missing field `title`".to_owned(),
                        };
                        errors.push(RowError { at: RowRef::Row(k), message });
                    },
                }
            },
        }
        proof {
            if valid@.len() > old_valid.len() {
                assert(creates_view(valid@) =~= creates_view(old_valid).push(row_fields(h, upto.last())->0));
                assert(errors@ == old_errors);
            } else {
                assert(valid@ == old_valid);
                assert(error_refs(errors@) =~= error_refs(old_errors).push(RowRef::Row(k)));
                assert(row_refs(rejected_rows(h, upto)) =~= row_refs(rejected_rows(h, before)).push(RowRef::Row(k)));
            }
            assert forall|i: int| 0 <= i < errors@.len() implies {
                let n = rejected_rows(h, upto)[i];
                &&& 1 <= n < k + 1
                &&& (records@[n] matches Ok(f) ==> (#[trigger] errors@[i]).message@ == row_problem(h, strings_view(f@)))
                &&& (records@[n] matches Err(m) ==> errors@[i].message@ == "csv parse error: "@ + m@)
            } by {
                if i < old_errors.len() {
                    assert(errors@[i] == old_errors[i]);
                    assert(rejected_rows(h, upto)[i] == rejected_rows(h, before)[i]);
                } else {
                    assert(rejected_rows(h, upto)[i] == k);
                }
            }
        }
        k += 1;
    }
    assert(data.subrange(0, k - 1) =~= data);
    Ok(Candidates { valid, errors })
}

/// Rejected row numbers are between 1 and the number of rows.
proof fn rejected_rows_bound(h: Seq<Seq<char>>, rows: Seq<Option<Seq<Seq<char>>>>)
    ensures
        rejected_rows(h, rows).len() <= rows.len(),
        forall|i: int| 0 <= i < rejected_rows(h, rows).len() ==> 1 <= #[trigger] rejected_rows(h, rows)[i] <= rows.len(),
    decreases rows.len(),
{
    if rows.len() > 0 {
        rejected_rows_bound(h, rows.drop_last());
    }
}

/// A candidate pair is valid when its title holds more than whitespace.
pub open spec fn pair_valid(c: (Seq<char>, Seq<char>)) -> bool {
    trim_spec(c.0).len() > 0
}

/// The positions, from 0, of the invalid candidates, in order.
pub open spec fn invalid_positions(s: Seq<(Seq<char>, Seq<char>)>) -> Seq<int>
    decreases s.len(),
{
    if s.len() == 0 {
        Seq::empty()
    } else {
        let prev = invalid_positions(s.drop_last());
        if pair_valid(s.last()) {
            prev
        } else {
            prev.push(s.len() - 1)
        }
    }
}

/// The index references of the given positions.
pub open spec fn index_refs(n: Seq<int>) -> Seq<RowRef> {
    n.map_values(|k: int| RowRef::Index(k as usize))
}

/// Split a structured sequence of creation records into the valid ones and
/// rejections by position, each with the reason `title must not be empty`.
pub fn plan_structured(items: Vec<TaskCreate>) -> (r: Candidates)
    ensures
        creates_view(r.valid@) == creates_view(items@).filter(|c: (Seq<char>, Seq<char>)| pair_valid(c)),
        error_refs(r.errors@) == index_refs(invalid_positions(creates_view(items@))),
        forall|i: int| 0 <= i < r.errors@.len() ==> (#[trigger] r.errors@[i]).message@ == "title must not be empty"@,
{
    let ghost all = creates_view(items@);
    let mut valid: Vec<TaskCreate> = Vec::new();
    let mut errors: Vec<RowError> = Vec::new();
    let mut i: usize = 0;
    while i < items.len()
        invariant
            i <= items@.len(),
            all == creates_view(items@),
            creates_view(valid@) == all.subrange(0, i as int).filter(|c: (Seq<char>, Seq<char>)| pair_valid(c)),
            error_refs(errors@) == index_refs(invalid_positions(all.subrange(0, i as int))),
            forall|j: int| 0 <= j < errors@.len() ==> (#[trigger] errors@[j]).message@ == "title must not be empty"@,
        decreases items@.len() - i,
    {
        let ghost before = all.subrange(0, i as int);
        let ghost upto = all.subrange(0, i as int + 1);
        assert(upto.drop_last() =~= before);
        let ghost old_valid = valid@;
        let ghost old_errors = errors@;
        let c = &items[i];
        assert(upto.last() == (c.title@, c.description@));
        match c.validate() {
            Ok(()) => {
                valid.push(TaskCreate { title: c.title.clone(), description: c.description.clone() });
                assert(creates_view(valid@) =~= creates_view(old_valid).push(upto.last()));
                assert(upto.filter(|c: (Seq<char>, Seq<char>)| pair_valid(c)) == before.filter(|c: (Seq<char>, Seq<char>)| pair_valid(c)).push(upto.last())) by {
                    reveal(Seq::filter);
                }
            },
            Err(m) => {
                errors.push(RowError { at: RowRef::Index(i), message: m });
                assert(error_refs(errors@) =~= error_refs(old_errors).push(RowRef::Index(i)));
                assert(index_refs(invalid_positions(upto)) =~= index_refs(invalid_positions(before)).push(RowRef::Index(i)));
                assert(upto.filter(|c: (Seq<char>, Seq<char>)| pair_valid(c)) == before.filter(|c: (Seq<char>, Seq<char>)| pair_valid(c))) by {
                    reveal(Seq::filter);
                }
                assert forall|j: int| 0 <= j < errors@.len() implies (#[trigger] errors@[j]).message@ == "title must not be empty"@ by {
                    if j < old_errors.len() {
                        assert(errors@[j] == old_errors[j]);
                    }
                }
            },
        }
        i += 1;
    }
    assert(all.subrange(0, i as int) =~= all);
    Candidates { valid, errors }
}

/// Titles and descriptions of tasks.
pub open spec fn task_pairs(s: Seq<TaskView>) -> Seq<(Seq<char>, Seq<char>)> {
    s.map_values(|t: TaskView| (t.title, t.description))
}

/// What importing delimited text `body` does: a payload that is not UTF-8, or
/// whose header cannot be read, is rejected as a whole and changes nothing;
/// otherwise each rejected data row is reported by number and the accepted
/// ones are created in one batch, in order.
pub open spec fn delimited_outcome(
    before: Seq<TaskView>,
    after: Seq<TaskView>,
    body: Seq<u8>,
    r: Result<ImportReport, ImportError>,
) -> bool {
    &&& (r is Err ==> after == before)
    &&& (!vstd::utf8::valid_utf8(body) ==> r == Err::<ImportReport, ImportError>(
        ImportError::InvalidEncoding,
    ))
    &&& (vstd::utf8::valid_utf8(body) ==> {
        let recs = csv_records_of(body);
        &&& (r is Err <==> recs.len() > 0 && recs[0] is None)
        &&& (r matches Err(e) ==> e is Malformed)
        &&& (r matches Ok(rep) ==> {
            let h = if recs.len() > 0 {
                recs[0]->0
            } else {
                Seq::empty()
            };
            let data = if recs.len() > 0 {
                recs.drop_first()
            } else {
                Seq::empty()
            };
            &&& after == before + views(rep.tasks@)
            &&& task_pairs(views(rep.tasks@)) == accepted_rows(h, data)
            &&& error_refs(rep.errors@) == row_refs(rejected_rows(h, data))
            &&& rep.imported == rep.tasks@.len()
            &&& rep.failed == rep.errors@.len()
        })
    })
}

/// The largest multipart payload accepted, in bytes.
pub const MAX_IMPORT_BYTES: usize = 5 * 1024 * 1024;

/// What importing the `file` part of a multipart payload does: a payload over
/// the size limit, a content type without multipart form data and a boundary,
/// a payload that is not UTF-8 or one without a `file` part is rejected as a
/// whole and changes nothing; otherwise the part's content is imported as
/// delimited text.
pub open spec fn multipart_outcome(
    before: Seq<TaskView>,
    after: Seq<TaskView>,
    body: Seq<u8>,
    content_type: Seq<u8>,
    r: Result<ImportReport, ImportError>,
) -> bool {
    &&& (r is Err ==> after == before)
    &&& (body.len() > MAX_IMPORT_BYTES ==> r == Err::<ImportReport, ImportError>(
        ImportError::PayloadTooLarge,
    ))
    &&& (body.len() <= MAX_IMPORT_BYTES && !is_multipart(content_type) ==> r == Err::<
        ImportReport,
        ImportError,
    >(ImportError::NotMultipart))
    &&& (body.len() <= MAX_IMPORT_BYTES && is_multipart(content_type) && !vstd::utf8::valid_utf8(
        body,
    ) ==> r == Err::<ImportReport, ImportError>(ImportError::InvalidEncoding))
    &&& (body.len() <= MAX_IMPORT_BYTES && is_multipart(content_type) && vstd::utf8::valid_utf8(body)
        ==> match file_part_of(body, content_type) {
        Some(c) => delimited_outcome(before, after, c, r),
        None => r == Err::<ImportReport, ImportError>(ImportError::FilePartNotFound),
    })
}

/// Every data row can be read and supplies both columns.
pub open spec fn all_readable(h: Seq<Seq<char>>, rows: Seq<Option<Seq<Seq<char>>>>) -> bool {
    forall|i: int| 0 <= i < rows.len() ==> (#[trigger] row_fields(h, rows[i])) is Some
}

/// What importing delimited text all or nothing does: as a delimited import,
/// except that a payload with a data row that cannot be read, or lacks the
/// `title` or `description` column, is rejected as a whole and changes nothing.
/// Rows with an empty title are still reported one by one.
pub open spec fn strict_outcome(
    before: Seq<TaskView>,
    after: Seq<TaskView>,
    body: Seq<u8>,
    r: Result<ImportReport, ImportError>,
) -> bool {
    &&& (r is Err ==> after == before)
    &&& (!vstd::utf8::valid_utf8(body) ==> r == Err::<ImportReport, ImportError>(
        ImportError::InvalidEncoding,
    ))
    &&& (vstd::utf8::valid_utf8(body) ==> {
        let recs = csv_records_of(body);
        let h = if recs.len() > 0 {
            recs[0]->0
        } else {
            Seq::empty()
        };
        let data = if recs.len() > 0 {
            recs.drop_first()
        } else {
            Seq::empty()
        };
        &&& (r is Ok <==> (recs.len() == 0 || recs[0] is Some) && all_readable(h, data))
        &&& (r matches Err(e) ==> e is Malformed)
        &&& (r matches Ok(rep) ==> {
            &&& after == before + views(rep.tasks@)
            &&& task_pairs(views(rep.tasks@)) == accepted_rows(h, data)
            &&& error_refs(rep.errors@) == row_refs(rejected_rows(h, data))
            &&& rep.imported == rep.tasks@.len()
            &&& rep.failed == rep.errors@.len()
        })
    })
}

/// Whether every data record (all but the first) can be read and supplies
/// both columns.
fn records_readable(
    records: &Vec<Result<Vec<String>, String>>,
    title_col: Option<usize>,
    desc_col: Option<usize>,
) -> (r: bool)
    requires
        records@.len() > 0,
        records@[0] is Ok,
        title_col matches Some(i) ==> column(strings_view(records@[0]->Ok_0@), "title"@) == Some(i as int),
        desc_col matches Some(i) ==> column(strings_view(records@[0]->Ok_0@), "description"@) == Some(i as int),
        title_col is None <==> column(strings_view(records@[0]->Ok_0@), "title"@) is None,
        desc_col is None <==> column(strings_view(records@[0]->Ok_0@), "description"@) is None,
    ensures
        r == all_readable(strings_view(records@[0]->Ok_0@), records_view(records@).drop_first()),
{
    let ghost h = strings_view(records@[0]->Ok_0@);
    let ghost data = records_view(records@).drop_first();
    let mut k: usize = 1;
    while k < records.len()
        invariant
            1 <= k <= records@.len(),
            h == strings_view(records@[0]->Ok_0@),
            data == records_view(records@).drop_first(),
            title_col matches Some(i) ==> column(h, "title"@) == Some(i as int),
            desc_col matches Some(i) ==> column(h, "description"@) == Some(i as int),
            title_col is None <==> column(h, "title"@) is None,
            desc_col is None <==> column(h, "description"@) is None,
            forall|i: int| 0 <= i < k - 1 ==> (#[trigger] row_fields(h, data[i])) is Some,
        decreases records@.len() - k,
    {
        assert(data[k - 1] == record_view(records@[k as int]));
        let ok = match &records[k] {
            Err(_) => false,
            Ok(fields) => match (title_col, desc_col) {
                (Some(ti), Some(di)) => ti < fields.len() && di < fields.len(),
                _ => false,
            },
        };
        if !ok {
            assert(row_fields(h, data[k - 1]) is None);
            return false;
        }
        k += 1;
    }
    true
}

impl TaskStore {
    /// Create the valid candidates in one batch, in order, and report them
    /// together with the rejected ones.
    pub fn import_candidates(&mut self, c: Candidates) -> (r: ImportReport)
        requires
            old(self).wf(),
        ensures
            final(self).wf(),
            final(self)@ == old(self)@ + views(r.tasks@),
            task_pairs(views(r.tasks@)) == creates_view(c.valid@),
            r.imported == c.valid@.len(),
            r.imported == r.tasks@.len(),
            r.failed == c.errors@.len(),
            r.errors@ == c.errors@,
            forall|i: int| 0 <= i < r.tasks@.len() ==> !old(self).issued().contains(#[trigger] r.tasks@[i].id),
    {
        let created = if c.valid.len() == 0 {
            let none: Vec<Task> = Vec::new();
            assert(views(none@) =~= Seq::<TaskView>::empty());
            assert(old(self)@ + views(none@) =~= old(self)@);
            none
        } else {
            self.insert_many(c.valid.as_slice())
        };
        assert(task_pairs(views(created@)) =~= creates_view(c.valid@));
        let failed = c.errors.len();
        ImportReport { imported: created.len(), failed, errors: c.errors, tasks: created }
    }

    /// Import a structured sequence of creation records: each invalid one is
    /// reported by position, the valid ones are created in one batch.
    pub fn import_structured(&mut self, items: Vec<TaskCreate>) -> (r: ImportReport)
        requires
            old(self).wf(),
        ensures
            final(self).wf(),
            final(self)@ == old(self)@ + views(r.tasks@),
            task_pairs(views(r.tasks@)) == creates_view(items@).filter(|c: (Seq<char>, Seq<char>)| pair_valid(c)),
            error_refs(r.errors@) == index_refs(invalid_positions(creates_view(items@))),
            r.imported == r.tasks@.len(),
            r.failed == r.errors@.len(),
    {
        let c = plan_structured(items);
        self.import_candidates(c)
    }

    /// Import delimited text: a payload that is not UTF-8, or whose header
    /// cannot be read, is rejected as a whole and changes nothing; otherwise
    /// each rejected data row is reported by number and the accepted ones are
    /// created in one batch.
    pub fn import_delimited(&mut self, body: &[u8]) -> (r: Result<ImportReport, ImportError>)
        requires
            old(self).wf(),
        ensures
            final(self).wf(),
            delimited_outcome(old(self)@, final(self)@, body@, r),
            r matches Ok(rep) ==> rep.imported == rep.tasks@.len() && rep.failed == rep.errors@.len(),
    {
        if !is_utf8(body) {
            return Err(ImportError::InvalidEncoding);
        }
        let records = read_csv_records(body);
        proof {
            let recs = csv_records_of(body@);
            assert(records_view(records@) == recs);
            if records@.len() > 0 {
                assert(recs[0] == record_view(records@[0]));
            }
        }
        match plan_delimited(&records) {
            Ok(c) => {
                proof {
                    if records@.len() == 0 {
                        assert(accepted_rows(Seq::empty(), Seq::empty()) =~= Seq::empty());
                        assert(creates_view(c.valid@) =~= Seq::empty());
                        assert(error_refs(c.errors@) =~= Seq::empty());
                        assert(row_refs(rejected_rows(Seq::empty(), Seq::empty())) =~= Seq::empty());
                    }
                }
                Ok(self.import_candidates(c))
            },
            Err(e) => Err(e),
        }
    }

    /// Import the delimited text in the `file` part of a multipart payload: a
    /// payload over the size limit, a content type without multipart form data
    /// and a boundary, a payload that is not UTF-8 or one without a `file` part
    /// is rejected as a whole and changes nothing; otherwise the part's content
    /// is imported as delimited text.
    pub fn import_multipart(&mut self, body: &[u8], content_type: &[u8]) -> (r: Result<
        ImportReport,
        ImportError,
    >)
        requires
            old(self).wf(),
        ensures
            final(self).wf(),
            multipart_outcome(old(self)@, final(self)@, body@, content_type@, r),
            r matches Ok(rep) ==> rep.imported == rep.tasks@.len() && rep.failed == rep.errors@.len(),
    {
        if body.len() > MAX_IMPORT_BYTES {
            return Err(ImportError::PayloadTooLarge);
        }
        match extract_file_part(body, content_type) {
            Ok(content) => self.import_delimited(content.as_slice()),
            Err(e) => Err(e),
        }
    }

    /// Import delimited text all or nothing: a data row that cannot be read,
    /// or lacks a column, rejects the whole payload and changes nothing; rows
    /// with an empty title are reported one by one.
    pub fn import_delimited_strict(&mut self, body: &[u8]) -> (r: Result<ImportReport, ImportError>)
        requires
            old(self).wf(),
        ensures
            final(self).wf(),
            strict_outcome(old(self)@, final(self)@, body@, r),
    {
        if !is_utf8(body) {
            return Err(ImportError::InvalidEncoding);
        }
        let records = read_csv_records(body);
        proof {
            let recs = csv_records_of(body@);
            assert(records_view(records@) == recs);
            if records@.len() > 0 {
                assert(recs[0] == record_view(records@[0]));
            }
        }
        if records.len() > 0 {
            if let Ok(header) = &records[0] {
                let title_col = find_column(header, "title");
                let desc_col = find_column(header, "description");
                if !records_readable(&records, title_col, desc_col) {
                    return Err(ImportError::Malformed(
                        "csv parse error: a row cannot be read or lacks a column".to_owned(),
                    ));
                }
            }
        }
        match plan_delimited(&records) {
            Ok(c) => {
                proof {
                    if records@.len() == 0 {
                        assert(accepted_rows(Seq::empty(), Seq::empty()) =~= Seq::empty());
                        assert(creates_view(c.valid@) =~= Seq::empty());
                        assert(error_refs(c.errors@) =~= Seq::empty());
                        assert(row_refs(rejected_rows(Seq::empty(), Seq::empty())) =~= Seq::empty());
                    }
                }
                Ok(self.import_candidates(c))
            },
            Err(e) => Err(e),
        }
    }
}

} // verus!
