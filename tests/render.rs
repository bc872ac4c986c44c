use ocs::cli::{CommonArgs, OutputFormat};
use ocs::render::{d3_html_page, listing_order, Summary, D3_HTML_POSTFIX, D3_HTML_PREFIX};
use ocs::summary::SummaryRawData;

#[test]
fn summary_records_in_order() {
    let d = SummaryRawData { no_of_commits: 3, no_of_authors: 2, no_of_entries: 5, no_of_entries_changed: 7 };
    let r = d.records();
    let got: Vec<(&str, u64)> = r.iter().map(|s| (s.statistics, s.value)).collect();
    assert_eq!(
        got,
        vec![
            ("number-of-commits", 3),
            ("number-of-authors", 2),
            ("number-of-entries", 5),
            ("number-of-entries-changed", 7)
        ]
    );
}

#[test]
fn summary_record_new() {
    let s = Summary::new("number-of-commits", 42);
    assert_eq!(s.statistics, "number-of-commits");
    assert_eq!(s.value, 42);
}

#[test]
fn html_page_wraps_the_data() {
    let page = d3_html_page(&b"[1]".to_vec());
    let text = String::from_utf8(page).unwrap();
    assert_eq!(text, format!("{}[1]{}", D3_HTML_PREFIX, D3_HTML_POSTFIX));
    assert!(text.contains("<!DOCTYPE html>"));
    assert!(text.contains("const data =\n[1]\n;"));
}

#[test]
fn listing_puts_unflagged_first_in_order() {
    assert_eq!(listing_order(&vec![true, false, true, false, false]), vec![1, 3, 4, 0, 2]);
    assert_eq!(listing_order(&vec![]), Vec::<usize>::new());
    assert_eq!(listing_order(&vec![true, true]), vec![0, 1]);
}

#[test]
fn output_format_names() {
    let names: Vec<&str> = OutputFormat::value_variants().iter().map(|f| f.name()).collect();
    assert_eq!(names, vec!["csv", "json", "D3html"]);
    assert!(OutputFormat::Csv.help().contains("delimiter"));
}

#[test]
fn common_args_default_to_csv_on_stdout() {
    let a = CommonArgs::new("/tmp/repo".to_string());
    assert_eq!(a.project_dir, "/tmp/repo");
    assert_eq!(a.format, OutputFormat::Csv);
    assert!(a.output.is_none());
}

#[test]
fn html_page_keeps_title_line_break() {
    assert!(D3_HTML_POSTFIX.contains("${d.data.statistics}\n${format(d.value)}"));
    assert!(D3_HTML_POSTFIX.contains("the layout\u{2019}s x and y values"));
}
