//! Tab-separated output: one header line, then one line per course. Tabs or
//! line breaks inside a field are written as they are.
use vstd::prelude::*;
use crate::crawl::{record_view, CourseRecord, RecordView};

verus! {

/// The first line of the output.
pub open spec fn header_line() -> Seq<char> {
    "department\tcourse_number\tcourse_name\tunits\tdescription\n"@
}

/// The line of one record: its five fields parted by tabs.
pub open spec fn row_line(r: RecordView) -> Seq<char> {
    r.0 + "\t"@ + r.1 + "\t"@ + r.2 + "\t"@ + r.3 + "\t"@ + r.4 + "\n"@
}

/// The lines of `rows`, in order.
pub open spec fn rows_text(rows: Seq<RecordView>) -> Seq<char>
    decreases rows.len(),
{
    if rows.len() == 0 {
        Seq::empty()
    } else {
        rows_text(rows.drop_last()) + row_line(rows.last())
    }
}

/// A whole output file holding `rows`.
pub open spec fn output_text(rows: Seq<RecordView>) -> Seq<char> {
    header_line() + rows_text(rows)
}

/// The first line of the output.
pub fn header_row() -> (r: String)
    ensures
        r@ == header_line(),
{
    String::from_str("department\tcourse_number\tcourse_name\tunits\tdescription\n")
}

/// The output line of one record.
pub fn format_row(rec: &CourseRecord) -> (r: String)
    ensures
        r@ == row_line(record_view(*rec)),
{
    let mut s = String::from_str(rec.department.as_str());
    s.append("\t");
    s.append(rec.number.as_str());
    s.append("\t");
    s.append(rec.name.as_str());
    s.append("\t");
    s.append(rec.units.as_str());
    s.append("\t");
    s.append(rec.description.as_str());
    s.append("\n");
    s
}

/// A whole output file: the header line, then the line of each record in
/// order.
pub fn render_output(rows: &Vec<CourseRecord>) -> (r: String)
    ensures
        r@ == output_text(rows@.map_values(|c: CourseRecord| record_view(c))),
{
    let ghost views = rows@.map_values(|c: CourseRecord| record_view(c));
    let mut s = header_row();
    let mut i: usize = 0;
    while i < rows.len()
        invariant
            i <= rows.len(),
            views == rows@.map_values(|c: CourseRecord| record_view(c)),
            s@ == header_line() + rows_text(views.take(i as int)),
        decreases rows.len() - i,
    {
        let line = format_row(&rows[i]);
        s.append(line.as_str());
        assert(views.take(i + 1).drop_last() =~= views.take(i as int));
        assert(s@ =~= header_line() + rows_text(views.take(i + 1)));
        i += 1;
    }
    assert(views.take(rows.len() as int) =~= views);
    s
}

} // verus!
