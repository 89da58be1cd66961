//! The per-course and per-department steps of a crawl: each block becomes a
//! record or a recorded error, and a summary counts what happened. Fetching
//! pages and writing the output stay with the caller.
use vstd::prelude::*;
use crate::blocks::{blocks_of, blocks_view, extract_blocks, CourseBlock};
use crate::header::{
    header_fields, lemma_resolved_parts_not_empty, parse_header, HeaderFields, ParseError,
};
use crate::markup::{decode_and_strip, plain_text};
use crate::tsv::{output_text, render_output};

verus! {

/// One course of the catalog.
pub struct CourseRecord {
    pub department: String,
    pub number: String,
    pub name: String,
    pub units: String,
    pub description: String,
}

/// A record as five character sequences: department, number, name, units and
/// description.
pub type RecordView = (Seq<char>, Seq<char>, Seq<char>, Seq<char>, Seq<char>);

pub open spec fn record_view(r: CourseRecord) -> RecordView {
    (r.department@, r.number@, r.name@, r.units@, r.description@)
}

/// A failure that a crawl records and goes past.
pub enum CrawlError {
    /// A department page could not be fetched.
    Fetch { department: String, message: String },
    /// A course header of a department could not be resolved.
    Parse { department: String, error: ParseError },
}

/// What a crawl has done so far.
pub struct CrawlSummary {
    pub departments_seen: usize,
    pub courses_written: usize,
    pub errors: Vec<CrawlError>,
}

/// What one block of department `dept` yields: its record, or the plain text
/// of a header that no rule resolves.
pub open spec fn course_outcome(dept: Seq<char>, block: (Seq<char>, Seq<char>)) -> Result<
    RecordView,
    Seq<char>,
> {
    let header = plain_text(block.0);
    match header_fields(header) {
        Some((code, name, units)) => Ok((dept, code, name, units, plain_text(block.1))),
        None => Err(header),
    }
}

/// What each block of a department page yields, in order.
pub open spec fn page_outcomes(dept: Seq<char>, page: Seq<char>) -> Seq<Result<RecordView, Seq<char>>> {
    blocks_of(page).map_values(|b: (Seq<char>, Seq<char>)| course_outcome(dept, b))
}

/// The records among `outs`, in order.
pub open spec fn good_rows(outs: Seq<Result<RecordView, Seq<char>>>) -> Seq<RecordView>
    decreases outs.len(),
{
    if outs.len() == 0 {
        Seq::empty()
    } else {
        match outs.last() {
            Ok(r) => good_rows(outs.drop_last()).push(r),
            Err(_) => good_rows(outs.drop_last()),
        }
    }
}

/// The unresolved headers among `outs`, in order.
pub open spec fn bad_headers(outs: Seq<Result<RecordView, Seq<char>>>) -> Seq<Seq<char>>
    decreases outs.len(),
{
    if outs.len() == 0 {
        Seq::empty()
    } else {
        match outs.last() {
            Ok(_) => bad_headers(outs.drop_last()),
            Err(h) => bad_headers(outs.drop_last()).push(h),
        }
    }
}

/// `n + 1`, held at the largest `usize`.
pub open spec fn bump(n: usize) -> usize {
    if n < usize::MAX {
        (n + 1) as usize
    } else {
        n
    }
}

/// `n + k`, held at the largest `usize`.
pub open spec fn bump_by(n: usize, k: nat) -> usize {
    if n + k <= usize::MAX {
        (n + k) as usize
    } else {
        usize::MAX
    }
}

/// Whether `e` records that `header` of department `dept` was not resolved.
pub open spec fn is_parse_error(e: CrawlError, dept: Seq<char>, header: Seq<char>) -> bool {
    match e {
        CrawlError::Parse { department, error: ParseError::UnrecognizedHeader(h) } => department@
            == dept && h@ == header,
        _ => false,
    }
}

/// Whether `e` records that the page of department `dept` could not be fetched.
pub open spec fn is_fetch_error(e: CrawlError, dept: Seq<char>, message: Seq<char>) -> bool {
    match e {
        CrawlError::Fetch { department, message: m } => department@ == dept && m@ == message,
        _ => false,
    }
}

fn copy_string(s: &String) -> (r: String)
    ensures
        r@ == s@,
{
    s.clone()
}

/// Turns one block of department `department` into its record: both parts
/// are decoded and stripped, and the header is resolved into number, name
/// and units.
pub fn process_block(department: &str, block: &CourseBlock) -> (r: Result<CourseRecord, ParseError>)
    ensures
        match r {
            Ok(rec) => course_outcome(department@, (block.header_html@, block.description_html@))
                == Ok::<RecordView, Seq<char>>(record_view(rec)) && rec.number@.len() > 0
                && rec.name@.len() > 0 && !rec.description@.contains('<')
                && !rec.description@.contains('>'),
            Err(ParseError::UnrecognizedHeader(h)) => course_outcome(
                department@,
                (block.header_html@, block.description_html@),
            ) == Err::<RecordView, Seq<char>>(h@),
        },
{
    let header = decode_and_strip(block.header_html.as_str());
    proof {
        lemma_resolved_parts_not_empty(header@);
    }
    match parse_header(header.as_str()) {
        Ok(HeaderFields { code, name, units }) => {
            let description = decode_and_strip(block.description_html.as_str());
            Ok(
                CourseRecord {
                    department: String::from_str(department),
                    number: code,
                    name,
                    units,
                    description,
                },
            )
        },
        Err(e) => Err(e),
    }
}

impl CrawlSummary {
    /// A summary of a crawl that has not started.
    pub fn new() -> (r: CrawlSummary)
        ensures
            r.departments_seen == 0,
            r.courses_written == 0,
            r.errors@.len() == 0,
    {
        CrawlSummary { departments_seen: 0, courses_written: 0, errors: Vec::new() }
    }

    /// Counts the outcome of one course of department `department`. A record
    /// counts as written and is handed back for the output; an unresolved
    /// header is added to the errors, and the count of written courses stays.
    pub fn record_course(&mut self, department: &str, outcome: Result<CourseRecord, ParseError>) -> (r: Option<CourseRecord>)
        ensures
            final(self).departments_seen == old(self).departments_seen,
            match outcome {
                Ok(rec) => r == Some(rec) && final(self).courses_written == bump(
                    old(self).courses_written,
                ) && final(self).errors@ == old(self).errors@,
                Err(ParseError::UnrecognizedHeader(h)) => r is None && final(self).courses_written
                    == old(self).courses_written && final(self).errors@.len() == old(
                    self,
                ).errors@.len() + 1 && final(self).errors@.drop_last() == old(self).errors@
                    && is_parse_error(final(self).errors@.last(), department@, h@),
            },
    {
        match outcome {
            Ok(rec) => {
                if self.courses_written < usize::MAX {
                    self.courses_written = self.courses_written + 1;
                }
                Some(rec)
            },
            Err(error) => {
                let ghost before = self.errors@;
                self.errors.push(CrawlError::Parse { department: String::from_str(department), error });
                assert(self.errors@.drop_last() =~= before);
                None
            },
        }
    }

    /// Counts a department whose page could not be fetched: it yields no
    /// course and one error.
    pub fn record_fetch_failure(&mut self, department: &str, message: &str)
        ensures
            final(self).departments_seen == bump(old(self).departments_seen),
            final(self).courses_written == old(self).courses_written,
            final(self).errors@.len() == old(self).errors@.len() + 1,
            final(self).errors@.drop_last() == old(self).errors@,
            is_fetch_error(final(self).errors@.last(), department@, message@),
    {
        if self.departments_seen < usize::MAX {
            self.departments_seen = self.departments_seen + 1;
        }
        let ghost before = self.errors@;
        self.errors.push(
            CrawlError::Fetch {
                department: String::from_str(department),
                message: String::from_str(message),
            },
        );
        assert(self.errors@.drop_last() =~= before);
    }

    /// Counts a department whose page was fetched, and returns its records in
    /// page order. Each block yields a record or an error; no block stops the
    /// others.
    pub fn crawl_department(&mut self, department: &str, page: &str) -> (r: Vec<CourseRecord>)
        ensures
            final(self).departments_seen == bump(old(self).departments_seen),
            r@.map_values(|c: CourseRecord| record_view(c)) == good_rows(
                page_outcomes(department@, page@),
            ),
            final(self).courses_written == bump_by(old(self).courses_written, r@.len()),
            final(self).errors@.len() == old(self).errors@.len() + bad_headers(
                page_outcomes(department@, page@),
            ).len(),
            final(self).errors@.subrange(0, old(self).errors@.len() as int) == old(self).errors@,
            forall|k: int|
                0 <= k < bad_headers(page_outcomes(department@, page@)).len() ==> is_parse_error(
                    #[trigger] final(self).errors@[old(self).errors@.len() + k],
                    department@,
                    bad_headers(page_outcomes(department@, page@))[k],
                ),
    {
        if self.departments_seen < usize::MAX {
            self.departments_seen = self.departments_seen + 1;
        }
        let blocks = extract_blocks(page);
        let ghost outs = page_outcomes(department@, page@);
        let ghost start = self.errors@;
        let ghost written = self.courses_written;
        let mut rows: Vec<CourseRecord> = Vec::new();
        let mut i: usize = 0;
        while i < blocks.len()
            invariant
                i <= blocks.len(),
                blocks_view(blocks@) == blocks_of(page@),
                outs == page_outcomes(department@, page@),
                outs.len() == blocks.len(),
                self.departments_seen == bump(old(self).departments_seen),
                start == old(self).errors@,
                written == old(self).courses_written,
                rows@.map_values(|c: CourseRecord| record_view(c)) == good_rows(outs.take(i as int)),
                self.courses_written == bump_by(written, rows@.len()),
                self.errors@.len() == start.len() + bad_headers(outs.take(i as int)).len(),
                self.errors@.subrange(0, start.len() as int) == start,
                forall|k: int|
                    0 <= k < bad_headers(outs.take(i as int)).len() ==> is_parse_error(
                        #[trigger] self.errors@[start.len() + k],
                        department@,
                        bad_headers(outs.take(i as int))[k],
                    ),
            decreases blocks.len() - i,
        {
            let outcome = process_block(department, &blocks[i]);
            assert(outs[i as int] == course_outcome(
                department@,
                (blocks@[i as int].header_html@, blocks@[i as int].description_html@),
            ));
            assert(outs.take(i + 1).drop_last() =~= outs.take(i as int));
            let ghost errs_before = self.errors@;
            let ghost rows_before = rows@;
            let ghost oc = outcome;
            match self.record_course(department, outcome) {
                Some(rec) => {
                    rows.push(rec);
                    assert(rows@.map_values(|c: CourseRecord| record_view(c)) =~= rows_before.map_values(
                        |c: CourseRecord| record_view(c),
                    ).push(record_view(rec)));
                },
                None => {
                    assert(self.errors@.subrange(0, start.len() as int) =~= errs_before.subrange(
                        0,
                        start.len() as int,
                    ));
                    let ghost bad = bad_headers(outs.take(i + 1));
                    assert forall|k: int| 0 <= k < bad.len() implies is_parse_error(
                        #[trigger] self.errors@[start.len() + k],
                        department@,
                        bad[k],
                    ) by {
                        if k < bad.len() - 1 {
                            assert(self.errors@[start.len() + k] == errs_before[start.len() + k]);
                        }
                    }
                },
            }
            i += 1;
        }
        assert(outs.take(blocks.len() as int) =~= outs);
        rows
    }
}

/// A department's code with its page as fetched, or the message of the
/// failure that stopped the fetch.
pub struct FetchedPage {
    pub department: String,
    pub page: Result<String, String>,
}

/// What a whole crawl yields: its summary and the text of its output file.
pub struct CrawlReport {
    pub summary: CrawlSummary,
    pub output: String,
}

pub type FetchedView = (Seq<char>, Result<Seq<char>, Seq<char>>);

pub open spec fn fetched_view(f: FetchedPage) -> FetchedView {
    (
        f.department@,
        match f.page {
            Ok(p) => Ok(p@),
            Err(m) => Err(m@),
        },
    )
}

/// The records of one fetched department; none if its fetch failed.
pub open spec fn page_rows(f: FetchedView) -> Seq<RecordView> {
    match f.1 {
        Ok(p) => good_rows(page_outcomes(f.0, p)),
        Err(_) => Seq::empty(),
    }
}

/// The errors of one fetched department: one if its fetch failed, else one
/// per unresolved header.
pub open spec fn page_error_count(f: FetchedView) -> nat {
    match f.1 {
        Ok(p) => bad_headers(page_outcomes(f.0, p)).len(),
        Err(_) => 1,
    }
}

/// The records of all departments, department after department.
pub open spec fn catalog_rows(fs: Seq<FetchedView>) -> Seq<RecordView>
    decreases fs.len(),
{
    if fs.len() == 0 {
        Seq::empty()
    } else {
        catalog_rows(fs.drop_last()) + page_rows(fs.last())
    }
}

/// The number of errors of all departments.
pub open spec fn catalog_error_count(fs: Seq<FetchedView>) -> nat
    decreases fs.len(),
{
    if fs.len() == 0 {
        0
    } else {
        catalog_error_count(fs.drop_last()) + page_error_count(fs.last())
    }
}

/// Runs the crawl over pages already fetched, in the order given: each
/// department is counted, a failed fetch is recorded and passed over, and the
/// records of the others make up the output after its header line.
pub fn crawl_pages(fetched: &Vec<FetchedPage>) -> (r: CrawlReport)
    ensures
        r.summary.departments_seen == fetched@.len(),
        r.output@ == output_text(catalog_rows(fetched@.map_values(|f: FetchedPage| fetched_view(f)))),
        r.summary.courses_written == bump_by(
            0,
            catalog_rows(fetched@.map_values(|f: FetchedPage| fetched_view(f))).len(),
        ),
        r.summary.errors@.len() == catalog_error_count(
            fetched@.map_values(|f: FetchedPage| fetched_view(f)),
        ),
{
    let ghost fs = fetched@.map_values(|f: FetchedPage| fetched_view(f));
    let mut summary = CrawlSummary::new();
    let mut rows: Vec<CourseRecord> = Vec::new();
    let mut i: usize = 0;
    while i < fetched.len()
        invariant
            i <= fetched.len(),
            fs == fetched@.map_values(|f: FetchedPage| fetched_view(f)),
            summary.departments_seen == i,
            rows@.map_values(|c: CourseRecord| record_view(c)) == catalog_rows(fs.take(i as int)),
            summary.courses_written == bump_by(0, rows@.len()),
            summary.errors@.len() == catalog_error_count(fs.take(i as int)),
        decreases fetched.len() - i,
    {
        let item = &fetched[i];
        assert(fs.take(i + 1).drop_last() =~= fs.take(i as int));
        assert(fs.take(i + 1).last() == fetched_view(*item));
        let ghost rows_before = rows@;
        match &item.page {
            Ok(page) => {
                let mut found = summary.crawl_department(item.department.as_str(), page.as_str());
                let ghost found_view = found@;
                rows.append(&mut found);
                assert(rows@.map_values(|c: CourseRecord| record_view(c)) =~= rows_before.map_values(
                    |c: CourseRecord| record_view(c),
                ) + found_view.map_values(|c: CourseRecord| record_view(c)));
            },
            Err(message) => {
                summary.record_fetch_failure(item.department.as_str(), message.as_str());
                assert(rows@.map_values(|c: CourseRecord| record_view(c)) =~= catalog_rows(
                    fs.take(i + 1),
                ));
            },
        }
        i += 1;
    }
    assert(fs.take(fetched.len() as int) =~= fs);
    let output = render_output(&rows);
    CrawlReport { summary, output }
}

/// Two crawls over the same fetched pages yield the same output text, the
/// same count of written courses and the same count of errors.
pub proof fn lemma_crawl_output_determined(first: Seq<FetchedView>, second: Seq<FetchedView>)
    requires
        first == second,
    ensures
        output_text(catalog_rows(first)) == output_text(catalog_rows(second)),
        bump_by(0, catalog_rows(first).len()) == bump_by(0, catalog_rows(second).len()),
        catalog_error_count(first) == catalog_error_count(second),
{
}

} // verus!
