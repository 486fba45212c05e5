use ros_kernel::codecheck::{
    dead_code, duplicate_code, extract_fns, scan_file, sev_label, Issue, IssueKind, Severity,
};

fn chars(s: &str) -> Vec<char> {
    s.chars().collect()
}

fn text(v: &[char]) -> String {
    v.iter().collect()
}

fn summary(issues: &[Issue]) -> Vec<(usize, Severity, &'static str, String)> {
    issues.iter().map(|i| (i.line, i.severity, i.kind.label(), text(&i.message))).collect()
}

fn files(list: &[(&str, &str)]) -> Vec<(Vec<char>, Vec<char>)> {
    list.iter().map(|(p, c)| (chars(p), chars(c))).collect()
}

#[test]
fn codecheck_scan_reports_in_check_order() {
    let src = "fn main() {  \n    let x = 42;\n    // TODO: fix\n    foo.unwrap();\n}";
    let found = summary(&scan_file(src));
    assert_eq!(
        found,
        vec![
            (1, Severity::Warning, "trailing-whitespace", String::new()),
            (5, Severity::Warning, "no-eof-newline", String::new()),
            (3, Severity::Info, "todo/fixme", "// TODO: fix".to_string()),
            (4, Severity::Warning, "unwrap", "foo.unwrap();".to_string()),
        ]
    );
}

#[test]
fn codecheck_clean_file_has_no_issues() {
    assert!(scan_file("/// Adds.\npub fn add(a: u8) -> u8 {\n    a + 1\n}\n").is_empty());
}

#[test]
fn codecheck_line_length_counts_bytes() {
    let long = format!("{}\n", "a".repeat(101));
    assert_eq!(summary(&scan_file(&long)), vec![(1, Severity::Warning, "line-too-long", "101 chars".to_string())]);
    let wide_ok = format!("{}\n", "é".repeat(50));
    assert!(scan_file(&wide_ok).is_empty());
    let wide = format!("{}\n", "é".repeat(51));
    assert_eq!(summary(&scan_file(&wide)), vec![(1, Severity::Warning, "line-too-long", "102 chars".to_string())]);
}

#[test]
fn codecheck_magic_numbers() {
    let src = "x = 100;\ny = 1;\nz = 0x10;\nw = 10u32;\nv = a1 + 22;\nu = 1_000;\nt = 07;\ns = 01;\nr = x.25;\nlet q = 99;\n";
    let found = summary(&scan_file(src));
    assert_eq!(
        found,
        vec![
            (1, Severity::Info, "magic-number", "x = 100;".to_string()),
            (5, Severity::Info, "magic-number", "v = a1 + 22;".to_string()),
            (7, Severity::Info, "magic-number", "t = 07;".to_string()),
        ]
    );
}

#[test]
fn codecheck_magic_number_message_is_cut_at_sixty_chars() {
    let line = format!("call({}, 42);", "a".repeat(70));
    let found = scan_file(&format!("{}\n", line));
    let magic: Vec<_> = found.iter().filter(|i| i.kind == IssueKind::MagicNumber).collect();
    assert_eq!(magic.len(), 1);
    assert_eq!(text(&magic[0].message), line.chars().take(60).collect::<String>());
}

#[test]
fn codecheck_deep_nesting() {
    let src = "fn a() {\n if x {\n  if y {\n   if z {\n    if w {\n     v();\n    }\n   }\n  }\n }\n}\n";
    assert_eq!(summary(&scan_file(src)), vec![(5, Severity::Warning, "deep-nesting", "depth 5".to_string())]);
    let shallow = "fn a() {\n if x {\n  if y {\n   if z { q(); }\n  }\n }\n}\n";
    assert!(scan_file(shallow).is_empty());
}

fn method_of(body_lines: usize) -> String {
    let mut src = String::from("impl A {\n    fn big() {\n");
    for _ in 0..body_lines {
        src.push_str("        x();\n");
    }
    src.push_str("    }\n}\n");
    src
}

#[test]
fn codecheck_long_function() {
    assert_eq!(
        summary(&scan_file(&method_of(49))),
        vec![(2, Severity::Warning, "long-fn", "51 lines: fn big".to_string())]
    );
    assert!(scan_file(&method_of(48)).is_empty());
}

#[test]
fn codecheck_function_line_brace_counts_twice() {
    let mut src = String::from("fn big() {\n");
    for _ in 0..60 {
        src.push_str("    x();\n");
    }
    src.push_str("}\n");
    assert!(scan_file(&src).is_empty());
}

#[test]
fn codecheck_missing_docs_unsafe_and_todo() {
    let src = "/// Documented.\npub fn a() {}\npub struct B;\n//! inner\npub enum C { X }\n    unsafe { f(); }\nunsafe{ g(); }\n// FixMe later\n* todo\nlet todo = h;\n";
    let found = summary(&scan_file(src));
    assert_eq!(
        found,
        vec![
            (8, Severity::Info, "todo/fixme", "// FixMe later".to_string()),
            (9, Severity::Info, "todo/fixme", "* todo".to_string()),
            (6, Severity::Info, "unsafe", String::new()),
            (3, Severity::Info, "missing-doc", "pub struct B;".to_string()),
        ]
    );
}

#[test]
fn codecheck_extract_fns() {
    let src = "fn main() {\n}\npub fn alpha(x: u8) {\n}\nimpl Foo for Bar\n{\n    fn inside() {\n    }\n}\nunsafe fn beta() { }\nfn decl();\npub unsafe fn gamma<T>(t: T) {\n";
    let fns: Vec<(usize, String)> = extract_fns(&chars(src)).into_iter().map(|(l, n)| (l, text(&n))).collect();
    assert_eq!(fns, vec![(3, "alpha".to_string()), (10, "beta".to_string()), (12, "gamma<T>".to_string())]);
}

#[test]
fn codecheck_dead_code() {
    let fs = files(&[
        ("kernel/a.rs", "fn delta () {\n}\nfn main() {\n    used ();\n}\n"),
        ("kernel/b.rs", "fn used () {\n}\nfn caller() { used(); }\n"),
    ]);
    let dead: Vec<(String, usize, String)> = dead_code(&fs).into_iter().map(|(f, l, n)| (text(&f), l, text(&n))).collect();
    assert_eq!(dead, vec![("kernel/a.rs".to_string(), 1, "delta".to_string())]);
}

#[test]
fn codecheck_duplicate_code() {
    let fs = files(&[
        ("a.rs", "a1();\na2();\na3();\na4();\na5();\na6();\n"),
        ("b.rs", "x();\n// note\n\na2();\n{\na3();\na4();\na5();\na6();\n"),
        ("c.rs", "a1();\n"),
    ]);
    let dups: Vec<(String, usize, String, usize)> =
        duplicate_code(&fs).into_iter().map(|(f, l, o, n)| (text(&f), l, text(&o), n)).collect();
    assert_eq!(dups, vec![("a.rs".to_string(), 2, "b.rs".to_string(), 5)]);
}

#[test]
fn codecheck_labels() {
    assert_eq!(sev_label(&Severity::Error), "ERR");
    assert_eq!(sev_label(&Severity::Warning), "WARN");
    assert_eq!(sev_label(&Severity::Info), "INFO");
    assert_eq!(IssueKind::TodoFixme.label(), "todo/fixme");
    assert_eq!(IssueKind::Duplicate.label(), "duplicate");
}
