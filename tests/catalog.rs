use course_catalog::blocks::{extract_blocks, CourseBlock};
use course_catalog::crawl::{crawl_pages, process_block, CrawlError, CrawlSummary, FetchedPage};
use course_catalog::header::{parse_header, ParseError};
use course_catalog::index::list_departments;
use course_catalog::markup::{decode_and_strip, remove_tags, strip_decoded};
use course_catalog::tsv::{format_row, header_row, render_output};
use course_catalog::url::encode_string;

fn course(header: &str, description: &str) -> String {
    format!(
        "<p class=\"anchor-parent\"><a class=\"anchor\" id=\"x\" name=\"x\"></a></p>\n<p class=\"course-name\">{}</p>\n<p class=\"course-descriptions\">{}</p>\n",
        header, description
    )
}

fn fields(header: &str) -> (String, String, String) {
    match parse_header(header) {
        Ok(f) => (f.code, f.name, f.units),
        Err(ParseError::UnrecognizedHeader(h)) => panic!("unrecognized: {}", h),
    }
}

#[test]
fn parse_general_header() {
    let (code, name, units) = fields("CSE 101. Design and Analysis of Algorithms (4)");
    assert_eq!(code, "CSE 101");
    assert_eq!(name, "Design and Analysis of Algorithms");
    assert_eq!(units, "4");
}

#[test]
fn parse_header_with_letter_suffix() {
    let (code, name, units) = fields("COMM 101A. Intro to Comm (4)");
    assert_eq!(code, "COMM 101A");
    assert_eq!(name, "Intro to Comm");
    assert_eq!(units, "4");
}

#[test]
fn parse_header_without_units() {
    let (code, name, units) = fields("COMM 101A. Intro to Comm");
    assert_eq!(code, "COMM 101A");
    assert_eq!(name, "Intro to Comm");
    assert_eq!(units, "");
}

#[test]
fn parse_header_space_separated_code() {
    let (code, name, units) = fields("CSE 190A Special Topics in Computing (2-4)");
    assert_eq!(code, "CSE 190A");
    assert_eq!(name, "Special Topics in Computing");
    assert_eq!(units, "2-4");
}

#[test]
fn parse_header_keeps_inner_parentheses() {
    let (code, name, units) = fields("MATH 20A. Calculus (Honors) (4)");
    assert_eq!(code, "MATH 20A");
    assert_eq!(name, "Calculus (Honors)");
    assert_eq!(units, "4");
}

#[test]
fn parse_header_colon_separator() {
    let (code, name, units) = fields("BILD 1: The Cell (4)");
    assert_eq!(code, "BILD 1");
    assert_eq!(name, "The Cell");
    assert_eq!(units, "4");
}

#[test]
fn parse_irregular_two_token_header() {
    let (code, name, units) = fields("COMM 100A/CSI. Communication and Culture (4)");
    assert_eq!(code, "COMM 100A/CSI");
    assert_eq!(name, "Communication and Culture");
    assert_eq!(units, "4");
}

#[test]
fn parse_joint_listing_header() {
    let (code, name, units) = fields("Linguistics/Heritage Languages (LIHL) 116. Heritage Arabic (2.5)");
    assert_eq!(code, "LIHL 116");
    assert_eq!(name, "Heritage Arabic");
    assert_eq!(units, "2.5");
}

#[test]
fn malformed_joint_listing_is_rejected() {
    assert!(parse_header("Linguistics without a program list").is_err());
}

#[test]
fn unrecognized_header() {
    match parse_header("Not A Valid Header") {
        Err(ParseError::UnrecognizedHeader(h)) => assert_eq!(h, "Not A Valid Header"),
        Ok(_) => panic!("expected an error"),
    }
    assert!(parse_header("").is_err());
}

#[test]
fn unrecognized_header_counts_one_error() {
    let mut summary = CrawlSummary::new();
    let ok = process_block(
        "CSE",
        &CourseBlock {
            header_html: "CSE 11. Intro (4)".to_string(),
            description_html: "Basics.".to_string(),
        },
    );
    assert!(summary.record_course("CSE", ok).is_some());
    assert_eq!(summary.courses_written, 1);
    assert_eq!(summary.errors.len(), 0);
    let bad = process_block(
        "CSE",
        &CourseBlock {
            header_html: "Not A Valid Header".to_string(),
            description_html: "x".to_string(),
        },
    );
    assert!(summary.record_course("CSE", bad).is_none());
    assert_eq!(summary.courses_written, 1);
    assert_eq!(summary.errors.len(), 1);
    match &summary.errors[0] {
        CrawlError::Parse { department, error: ParseError::UnrecognizedHeader(h) } => {
            assert_eq!(department, "CSE");
            assert_eq!(h, "Not A Valid Header");
        }
        _ => panic!("expected a parse error"),
    }
}

#[test]
fn decode_and_strip_entities_and_tags() {
    assert_eq!(decode_and_strip("&lt;b&gt;Intro&lt;/b&gt; &amp; more"), "Intro & more");
    assert_eq!(decode_and_strip("<em>Prerequisites:</em> CSE&nbsp;12"), "Prerequisites: CSE 12");
    assert_eq!(decode_and_strip("  &#65;&#x42;C  "), "ABC");
    assert_eq!(decode_and_strip(""), "");
}

#[test]
fn decode_and_strip_never_leaves_brackets() {
    let out = decode_and_strip("a &lt; b &gt; c <i>d</i> &#62; e");
    assert!(!out.contains('<') && !out.contains('>'));
    assert!(!out.contains("&lt;") && !out.contains("&#62;"));
}

#[test]
fn unmatched_open_bracket_drops_the_rest() {
    assert_eq!(remove_tags("abc < def"), "abc ");
    assert_eq!(remove_tags("a<b>c</b>d"), "acd");
    assert_eq!(remove_tags("x > y"), "x  y");
    assert_eq!(remove_tags(""), "");
}

#[test]
fn extract_blocks_in_document_order() {
    let mut page = String::from("<html><body>\n");
    for k in 0..3 {
        page.push_str(&course(&format!("CSE {}. Course {} (4)", k, k), &format!("About {}.", k)));
    }
    page.push_str("</body></html>\n");
    let blocks = extract_blocks(&page);
    assert_eq!(blocks.len(), 3);
    for (k, b) in blocks.iter().enumerate() {
        assert_eq!(b.header_html, format!("CSE {}. Course {} (4)", k, k));
        assert_eq!(b.description_html, format!("About {}.", k));
    }
}

#[test]
fn extract_blocks_description_runs_to_last_close() {
    let page = "<p class=\"course-name\">A 1. B (4)</p>\n<p class=\"course-descriptions\">x</p> y</p> tail\n";
    let blocks = extract_blocks(page);
    assert_eq!(blocks.len(), 1);
    assert_eq!(blocks[0].description_html, "x</p> y");
}

#[test]
fn extract_blocks_none_found() {
    assert_eq!(extract_blocks("").len(), 0);
    assert_eq!(extract_blocks("<p class=\"course-name\">A 1. B (4)</p> no description").len(), 0);
}

#[test]
fn list_departments_in_document_order() {
    let index = "<a href=\"/courses/cse.html\">CSE</a><a href=\"../courses/MATH.html\">Math</a><a href=\"courses/.html\">none</a>";
    let depts = list_departments(index);
    assert_eq!(depts.len(), 2);
    assert_eq!(depts[0].code, "CSE");
    assert_eq!(depts[0].url, "https://catalog.ucsd.edu/courses/CSE.html");
    assert_eq!(depts[1].code, "MATH");
    assert_eq!(depts[1].url, "https://catalog.ucsd.edu/courses/MATH.html");
    assert_eq!(list_departments("<p>nothing</p>").len(), 0);
}

fn end_to_end_pages() -> Vec<FetchedPage> {
    let index = "<a href=\"/courses/CSE.html\">CSE</a>\n<a href=\"/courses/MATH.html\">MATH</a>\n";
    let depts = list_departments(index);
    assert_eq!(depts.len(), 2);
    let mut cse = course("CSE 101. Design and Analysis of Algorithms (4)", "Design &amp; analysis.");
    cse.push_str(&course("Not A Valid Header", "Broken."));
    vec![
        FetchedPage { department: depts[0].code.clone(), page: Ok(cse) },
        FetchedPage { department: depts[1].code.clone(), page: Err("timed out".to_string()) },
    ]
}

#[test]
fn end_to_end_summary() {
    let report = crawl_pages(&end_to_end_pages());
    assert_eq!(report.summary.departments_seen, 2);
    assert_eq!(report.summary.courses_written, 1);
    assert_eq!(report.summary.errors.len(), 2);
    assert!(matches!(&report.summary.errors[0], CrawlError::Parse { error: ParseError::UnrecognizedHeader(_), .. }));
    match &report.summary.errors[1] {
        CrawlError::Fetch { department, message } => {
            assert_eq!(department, "MATH");
            assert_eq!(message, "timed out");
        }
        _ => panic!("expected a fetch error"),
    }
    assert_eq!(
        report.output,
        "department\tcourse_number\tcourse_name\tunits\tdescription\nCSE\tCSE 101\tDesign and Analysis of Algorithms\t4\tDesign & analysis.\n"
    );
    assert_eq!(report.output.lines().count(), 2);
}

#[test]
fn two_runs_give_identical_output() {
    let first = crawl_pages(&end_to_end_pages());
    let second = crawl_pages(&end_to_end_pages());
    assert_eq!(first.output.as_bytes(), second.output.as_bytes());
    assert_eq!(first.summary.courses_written, second.summary.courses_written);
}

#[test]
fn empty_crawl_writes_only_the_header() {
    let report = crawl_pages(&Vec::new());
    assert_eq!(report.summary.departments_seen, 0);
    assert_eq!(report.output, header_row());
    assert_eq!(render_output(&Vec::new()), "department\tcourse_number\tcourse_name\tunits\tdescription\n");
}

#[test]
fn fetch_failure_counts_department() {
    let mut summary = CrawlSummary::new();
    summary.record_fetch_failure("MATH", "timed out");
    assert_eq!(summary.departments_seen, 1);
    assert_eq!(summary.courses_written, 0);
    assert_eq!(summary.errors.len(), 1);
}

#[test]
fn crawl_department_counts_rows() {
    let mut summary = CrawlSummary::new();
    let mut page = course("MATH 20A. Calculus (4)", "Limits.");
    page.push_str(&course("MATH 20B. Calculus (4)", "Integrals."));
    let rows = summary.crawl_department("MATH", &page);
    assert_eq!(rows.len(), 2);
    assert_eq!(summary.departments_seen, 1);
    assert_eq!(summary.courses_written, 2);
    assert_eq!(format_row(&rows[1]), "MATH\tMATH 20B\tCalculus\t4\tIntegrals.\n");
}

#[test]
fn encode_query() {
    assert_eq!(encode_string("Where get good moon cake in sf"), "Where%20get%20good%20moon%20cake%20in%20sf");
    assert_eq!(encode_string("100%!"), "100%25%21");
    assert_eq!(encode_string("a-b_c.d/e?f=g&h"), "a%2Db%5Fc%2Ed%2Fe%3Ff%3Dg%26h");
    assert_eq!(encode_string("\tabc\n"), "abc");
    assert_eq!(encode_string("[x]^`@"), "%5Bx%5D%5E%60%40");
    assert_eq!(encode_string(""), "");
}

#[test]
fn strip_decoded_text() {
    assert_eq!(strip_decoded(" <b>A\u{a0}B</b> &amp; "), "A B &amp;");
    assert_eq!(strip_decoded("\u{a0}<i>x</i>\u{a0}"), "x");
    assert_eq!(strip_decoded("a <b"), "a");
}
