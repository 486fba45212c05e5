use ros_kernel::codecheck::{Issue, IssueKind, Severity};
use ros_kernel::report::{
    chars_le, counts_line, kind_count_line, more_line, file_report, is_kernel_path, is_skipped_dir, is_source_extension, kind_at, header_line, issues_page, keep_with_findings, kind_counts, sort_reports,
    totals, totals_fit, list_row, FileReport, Nav, NavKey,
};

fn chars(s: &str) -> Vec<char> {
    s.chars().collect()
}

fn text(v: &[char]) -> String {
    v.iter().collect()
}

fn report(path: &str, warnings: usize, infos: usize) -> FileReport {
    FileReport { path: chars(path), issues: Vec::new(), warnings, infos }
}

fn issue(line: usize, severity: Severity, kind: IssueKind) -> Issue {
    Issue { line, severity, kind, message: Vec::new() }
}

#[test]
fn report_adds_dead_code_and_duplicates_for_its_path() {
    let dead = vec![
        (chars("k/a.rs"), 7, chars("helper")),
        (chars("k/b.rs"), 3, chars("other")),
    ];
    let dups = vec![(chars("k/a.rs"), 12, chars("k/c.rs"), 6), (chars("k/c.rs"), 1, chars("k/d.rs"), 5)];
    let r = file_report(&chars("k/a.rs"), "fn f() {}\n", &dead, &dups);
    assert_eq!(text(&r.path), "k/a.rs");
    let got: Vec<(usize, Severity, &str, String)> =
        r.issues.iter().map(|i| (i.line, i.severity, i.kind.label(), text(&i.message))).collect();
    assert_eq!(
        got,
        vec![
            (7, Severity::Warning, "dead-code", "helper".to_string()),
            (12, Severity::Info, "duplicate", "6 lines match k/c.rs".to_string()),
        ]
    );
    assert_eq!(r.warnings, 1);
    assert_eq!(r.infos, 1);
}

#[test]
fn report_counts_scanner_findings() {
    let r = file_report(&chars("x.rs"), "a.unwrap();  \n// todo\n", &Vec::new(), &Vec::new());
    assert_eq!(r.warnings, 2);
    assert_eq!(r.infos, 1);
}

#[test]
fn report_sorting_order() {
    let reports = vec![
        report("b.rs", 1, 0),
        report("a.rs", 1, 0),
        report("z.rs", 3, 0),
        report("c.rs", 1, 5),
        report("d.rs", 0, 0),
    ];
    let sorted: Vec<String> = sort_reports(reports).iter().map(|r| text(&r.path)).collect();
    assert_eq!(sorted, vec!["z.rs", "c.rs", "a.rs", "b.rs", "d.rs"]);
}

#[test]
fn report_path_order_is_by_code_point() {
    assert!(chars_le(&chars("a"), &chars("ab")));
    assert!(!chars_le(&chars("ab"), &chars("a")));
    assert!(chars_le(&chars("Z"), &chars("a")));
    assert!(chars_le(&chars("same"), &chars("same")));
    assert!(chars_le(&chars("é"), &chars("ê")));
    assert!(!chars_le(&chars("é"), &chars("z")));
}

#[test]
fn report_totals_and_filter() {
    let reports = vec![report("a", 2, 0), report("b", 0, 0), report("c", 0, 3)];
    assert!(totals_fit(&reports));
    assert_eq!(totals(&reports), (2, 3));
    assert!(!totals_fit(&vec![report("x", usize::MAX, 0), report("y", 1, 0)]));
    assert!(!totals_fit(&vec![report("x", 0, usize::MAX), report("y", 0, 1)]));
    let kept: Vec<String> = keep_with_findings(reports).iter().map(|r| text(&r.path)).collect();
    assert_eq!(kept, vec!["a", "c"]);
}

#[test]
fn report_navigation_keys() {
    let mut nav = Nav::new(3);
    assert_eq!(nav.selected(), Some(0));
    assert_eq!(nav.tab(), 0);
    assert!(!nav.handle_key(NavKey::Up));
    assert_eq!(nav.selected(), Some(0));
    assert!(!nav.handle_key(NavKey::Char('j')));
    assert!(!nav.handle_key(NavKey::Down));
    assert!(!nav.handle_key(NavKey::Down));
    assert_eq!(nav.selected(), Some(2));
    assert!(!nav.handle_key(NavKey::Char('k')));
    assert_eq!(nav.shown(), Some(1));
    assert!(!nav.handle_key(NavKey::Right));
    assert!(!nav.handle_key(NavKey::Char('l')));
    assert!(!nav.handle_key(NavKey::Char('l')));
    assert_eq!(nav.tab(), 2);
    assert!(!nav.handle_key(NavKey::Char('h')));
    assert_eq!(nav.tab(), 1);
    assert!(!nav.handle_key(NavKey::Char('1')));
    assert!(!nav.handle_key(NavKey::Left));
    assert_eq!(nav.tab(), 0);
    assert!(!nav.handle_key(NavKey::Char('3')));
    assert_eq!(nav.tab(), 2);
    assert!(!nav.handle_key(NavKey::Char('x')));
    assert!(!nav.handle_key(NavKey::Other));
    assert_eq!((nav.selected(), nav.tab()), (Some(1), 2));
    assert!(nav.handle_key(NavKey::Char('q')));
    assert!(nav.handle_key(NavKey::Esc));
}

#[test]
fn report_empty_list_shows_nothing() {
    let mut nav = Nav::new(0);
    assert_eq!(nav.shown(), None);
    assert!(!nav.handle_key(NavKey::Down));
    assert_eq!(nav.selected(), Some(0));
}

#[test]
fn report_groups_by_kind_in_label_order() {
    let issues = vec![
        issue(1, Severity::Warning, IssueKind::Unwrap),
        issue(2, Severity::Warning, IssueKind::TrailingWhitespace),
        issue(3, Severity::Warning, IssueKind::Unwrap),
        issue(4, Severity::Info, IssueKind::MagicNumber),
        issue(5, Severity::Warning, IssueKind::DeadCode),
        issue(6, Severity::Warning, IssueKind::LongFn),
    ];
    let w: Vec<(&str, usize)> = kind_counts(&issues, Severity::Warning).into_iter().map(|(k, n)| (k.label(), n)).collect();
    assert_eq!(w, vec![("dead-code", 1), ("long-fn", 1), ("trailing-whitespace", 1), ("unwrap", 2)]);
    let i: Vec<(&str, usize)> = kind_counts(&issues, Severity::Info).into_iter().map(|(k, n)| (k.label(), n)).collect();
    assert_eq!(i, vec![("magic-number", 1)]);
    assert!(kind_counts(&issues, Severity::Error).is_empty());
}

#[test]
fn report_issue_page_is_capped() {
    let mut issues = Vec::new();
    for l in 0..105 {
        issues.push(issue(l, Severity::Info, IssueKind::MagicNumber));
        issues.push(issue(l, Severity::Warning, IssueKind::Unwrap));
    }
    let (shown, more) = issues_page(&issues, Severity::Info);
    assert_eq!(shown.len(), 100);
    assert_eq!(shown[0], 0);
    assert_eq!(shown[99], 198);
    assert_eq!(more, Some(5));
    let few = vec![issue(1, Severity::Warning, IssueKind::Unwrap), issue(2, Severity::Info, IssueKind::Unsafe)];
    assert_eq!(issues_page(&few, Severity::Warning), (vec![0], None));
    assert_eq!(issues_page(&few, Severity::Error), (vec![], None));
}

#[test]
fn report_header_line() {
    assert_eq!(
        text(&header_line(12, 3, 40, 7)),
        " CodeCheck  12 files scanned, 3 with issues  40W  7I    [1-3 tabs  j/k nav  q quit]"
    );
}

#[test]
fn report_filter_keeps_order_and_totals() {
    let reports = sort_reports(vec![
        report("q.rs", 0, 0),
        report("b.rs", 2, 1),
        report("a.rs", 0, 4),
        report("z.rs", 0, 0),
        report("c.rs", 2, 1),
    ]);
    let before = totals(&reports);
    let kept = keep_with_findings(reports);
    let names: Vec<String> = kept.iter().map(|r| text(&r.path)).collect();
    assert_eq!(names, vec!["b.rs", "c.rs", "a.rs"]);
    assert_eq!(totals(&kept), before);
    assert_eq!(before, (4, 6));
}

#[test]
fn report_kinds_are_in_label_order() {
    let labels: Vec<&str> = (0..12).map(|i| kind_at(i).label()).collect();
    let mut sorted = labels.clone();
    sorted.sort();
    assert_eq!(labels, sorted);
    sorted.dedup();
    assert_eq!(sorted.len(), 12);
}

#[test]
fn report_file_selection_rules() {
    assert!(is_skipped_dir("target"));
    assert!(is_skipped_dir(".git"));
    assert!(is_skipped_dir(".cargo"));
    assert!(!is_skipped_dir("src"));
    assert!(!is_skipped_dir("targets"));
    assert!(is_source_extension("rs"));
    assert!(!is_source_extension("rst"));
    assert!(!is_source_extension("RS"));
    assert!(is_kernel_path("kernel/src/main.rs"));
    assert!(is_kernel_path("kernels.rs"));
    assert!(!is_kernel_path("tools/codecheck/src/main.rs"));
}

#[test]
fn report_ties_keep_their_order() {
    let mut first = report("same.rs", 1, 0);
    first.issues.push(issue(1, Severity::Warning, IssueKind::Unwrap));
    let mut second = report("same.rs", 1, 0);
    second.issues.push(issue(2, Severity::Warning, IssueKind::LongFn));
    let sorted = sort_reports(vec![report("z.rs", 2, 0), first, report("a.rs", 0, 1), second]);
    let lines: Vec<usize> = sorted.iter().filter(|r| text(&r.path) == "same.rs").map(|r| r.issues[0].line).collect();
    assert_eq!(lines, vec![1, 2]);
}

#[test]
fn report_summary_lines() {
    assert_eq!(text(&counts_line(3, 12)), "  3 warnings, 12 infos\n");
    assert_eq!(text(&kind_count_line(7, IssueKind::MagicNumber)), "   7  magic-number");
    assert_eq!(text(&more_line(5)), "  ... 5 more issues");
}

#[test]
fn report_list_row_short_path() {
    let row = list_row(&chars("kernel/src/main.rs"), 3, 0);
    assert_eq!(text(&row.path), "kernel/src/main.rs");
    assert_eq!(text(&row.padding), " ".repeat(55 - 18));
    assert_eq!(text(&row.warnings), " 3W");
    assert_eq!(text(&row.infos), "  ");
}

#[test]
fn report_list_row_long_path_keeps_its_end() {
    let p = format!("{}/tail.rs", "d".repeat(60));
    let row = list_row(&chars(&p), 0, 12);
    assert_eq!(text(&row.path), format!("...{}", &p[p.len() - 45..]));
    assert_eq!(text(&row.path).len(), 48);
    assert_eq!(text(&row.padding), " ".repeat(7));
    assert_eq!(text(&row.warnings), "  ");
    assert_eq!(text(&row.infos), " 12I");
}

#[test]
fn report_list_row_counts_bytes_not_chars() {
    let p = format!("{}\u{e9}.rs", "a".repeat(44));
    assert_eq!(p.len(), 49);
    let row = list_row(&chars(&p), 1, 1);
    assert_eq!(text(&row.path), format!("...{}", &p[p.len() - 45..]));
    assert_eq!(text(&row.padding), " ".repeat(7));
    let q = "\u{e9}".repeat(10);
    let row = list_row(&chars(&q), 0, 0);
    assert_eq!(text(&row.path), q);
    assert_eq!(text(&row.padding), " ".repeat(35));
}
