use vstd::prelude::*;
use crate::codecheck::{
    chars_eq, clone_chars, dead_view, dups_view, emit, file_issues, issues_view, iv, kind_label,
    push_chars, push_str, scan_file, starts_with_str, utf8_len, utf8_length, utf8_width, DeadView,
    DupView, Issue, IssueKind, IssueView, Severity,
};
use crate::text::{chars_of, decimal, push_decimal, starts_with};
use vstd::multiset::Multiset;

verus! {

/// The findings for one source file, with how many are warnings and infos.
pub struct FileReport {
    pub path: Vec<char>,
    pub issues: Vec<Issue>,
    pub warnings: usize,
    pub infos: usize,
}

/// The mathematical value of a `FileReport`.
pub struct FileReportView {
    pub path: Seq<char>,
    pub issues: Seq<IssueView>,
    pub warnings: nat,
    pub infos: nat,
}

impl View for FileReport {
    type V = FileReportView;

    open spec fn view(&self) -> FileReportView {
        FileReportView {
            path: self.path@,
            issues: issues_view(self.issues@),
            warnings: self.warnings as nat,
            infos: self.infos as nat,
        }
    }
}

/// The views of a list of reports.
pub open spec fn reports_view(v: Seq<FileReport>) -> Seq<FileReportView> {
    v.map_values(|r: FileReport| r@)
}

/// How many of the issues have severity `s`.
pub open spec fn count_sev(v: Seq<IssueView>, s: Severity) -> nat
    decreases v.len(),
{
    if v.len() == 0 {
        0
    } else {
        count_sev(v.drop_last(), s) + if v.last().severity == s {
            1nat
        } else {
            0nat
        }
    }
}

/// The dead-code warnings that the unused-looking functions `d` give the
/// file at `path`.
pub open spec fn dead_issues(path: Seq<char>, d: Seq<DeadView>) -> Seq<IssueView>
    decreases d.len(),
{
    if d.len() == 0 {
        Seq::empty()
    } else {
        let x = d.last();
        dead_issues(path, d.drop_last()) + if x.0 == path {
            seq![iv(x.1, Severity::Warning, IssueKind::DeadCode, x.2)]
        } else {
            Seq::empty()
        }
    }
}

/// The message of a duplicate-run finding.
pub open spec fn dup_message(len: nat, other: Seq<char>) -> Seq<char> {
    decimal(len) + " lines match "@ + other
}

/// The duplicate infos that the runs `d` give the file at `path`.
pub open spec fn dup_issues(path: Seq<char>, d: Seq<DupView>) -> Seq<IssueView>
    decreases d.len(),
{
    if d.len() == 0 {
        Seq::empty()
    } else {
        let x = d.last();
        dup_issues(path, d.drop_last()) + if x.0 == path {
            seq![iv(x.1, Severity::Info, IssueKind::Duplicate, dup_message(x.3, x.2))]
        } else {
            Seq::empty()
        }
    }
}

/// The report of the file at `path` with contents `content`: the scanners'
/// findings, then its unused-looking functions, then its duplicate runs.
pub open spec fn spec_file_report(
    path: Seq<char>,
    content: Seq<char>,
    dead: Seq<DeadView>,
    dups: Seq<DupView>,
) -> FileReportView {
    let issues = file_issues(content) + dead_issues(path, dead) + dup_issues(path, dups);
    FileReportView {
        path,
        issues,
        warnings: count_sev(issues, Severity::Warning),
        infos: count_sev(issues, Severity::Info),
    }
}

/// Counts the issues of severity `s`.
pub fn count_severity(issues: &Vec<Issue>, s: Severity) -> (n: usize)
    ensures
        n == count_sev(issues_view(issues@), s),
{
    let ghost v = issues_view(issues@);
    let mut n: usize = 0;
    let mut k: usize = 0;
    while k < issues.len()
        invariant
            v == issues_view(issues@),
            k <= issues@.len(),
            n == count_sev(v.subrange(0, k as int), s),
            n <= k,
        decreases issues@.len() - k,
    {
        assert(v.subrange(0, k + 1).drop_last() =~= v.subrange(0, k as int));
        assert(v[k as int] == issues@[k as int]@);
        if issues[k].severity == s {
            n += 1;
        }
        k += 1;
    }
    assert(v.subrange(0, k as int) =~= v);
    n
}

/// Builds the report of one file: scans `content`, adds the dead-code
/// warnings and duplicate infos found for `path`, and counts.
pub fn file_report(
    path: &Vec<char>,
    content: &str,
    dead: &Vec<(Vec<char>, usize, Vec<char>)>,
    dups: &Vec<(Vec<char>, usize, Vec<char>, usize)>,
) -> (r: FileReport)
    requires
        content@.len() < i32::MAX,
        4 * content@.len() <= usize::MAX,
    ensures
        r@ == spec_file_report(path@, content@, dead_view(dead@), dups_view(dups@)),
{
    let mut issues = scan_file(content);
    let ghost base = file_issues(content@);
    let ghost dv = dead_view(dead@);
    let mut k: usize = 0;
    assert(dv.subrange(0, 0) =~= Seq::<DeadView>::empty());
    while k < dead.len()
        invariant
            dv == dead_view(dead@),
            k <= dead@.len(),
            issues_view(issues@) == base + dead_issues(path@, dv.subrange(0, k as int)),
        decreases dead@.len() - k,
    {
        assert(dv.subrange(0, k + 1).drop_last() =~= dv.subrange(0, k as int));
        let d = &dead[k];
        assert(dv[k as int] == (d.0@, d.1 as nat, d.2@));
        if chars_eq(d.0.as_slice(), path.as_slice()) {
            let name = clone_chars(&d.2);
            emit(&mut issues, d.1, Severity::Warning, IssueKind::DeadCode, name);
        }
        k += 1;
    }
    assert(dv.subrange(0, k as int) =~= dv);
    let ghost mid = issues_view(issues@);
    let ghost uv = dups_view(dups@);
    let mut k: usize = 0;
    assert(uv.subrange(0, 0) =~= Seq::<DupView>::empty());
    while k < dups.len()
        invariant
            uv == dups_view(dups@),
            k <= dups@.len(),
            issues_view(issues@) == mid + dup_issues(path@, uv.subrange(0, k as int)),
        decreases dups@.len() - k,
    {
        assert(uv.subrange(0, k + 1).drop_last() =~= uv.subrange(0, k as int));
        let d = &dups[k];
        assert(uv[k as int] == (d.0@, d.1 as nat, d.2@, d.3 as nat));
        if chars_eq(d.0.as_slice(), path.as_slice()) {
            let mut m: Vec<char> = Vec::new();
            push_decimal(&mut m, d.3 as u64);
            push_str(&mut m, " lines match ");
            push_chars(&mut m, d.2.as_slice());
            assert(m@ =~= dup_message(d.3 as nat, d.2@));
            emit(&mut issues, d.1, Severity::Info, IssueKind::Duplicate, m);
        }
        k += 1;
    }
    assert(uv.subrange(0, k as int) =~= uv);
    let warnings = count_severity(&issues, Severity::Warning);
    let infos = count_severity(&issues, Severity::Info);
    let r = FileReport { path: clone_chars(path), issues, warnings, infos };
    assert(r@.issues =~= spec_file_report(path@, content@, dv, uv).issues);
    r
}

// ---------------------------------------------------------------- file selection

/// A directory the source walk does not enter: build output, version
/// control, and hidden directories.
pub open spec fn skipped_dir(name: Seq<char>) -> bool {
    name == "target"@ || name == ".git"@ || starts_with(name, "."@)
}

/// Whether the source walk skips the directory called `name`.
pub fn is_skipped_dir(name: &str) -> (b: bool)
    ensures
        b == skipped_dir(name@),
{
    let n = chars_of(name);
    let target = chars_of("target");
    let git = chars_of(".git");
    chars_eq(&n, &target) || chars_eq(&n, &git) || starts_with_str(&n, ".")
}

/// A file the walk collects: one with the extension `rs`.
pub open spec fn source_extension(ext: Seq<char>) -> bool {
    ext == "rs"@
}

/// Whether a file with extension `ext` is a source file.
pub fn is_source_extension(ext: &str) -> (b: bool)
    ensures
        b == source_extension(ext@),
{
    let e = chars_of(ext);
    let rs = chars_of("rs");
    chars_eq(&e, &rs)
}

/// A file that is checked when no files are named: one under the kernel's
/// directory (its path relative to the project starts with `kernel`).
pub open spec fn kernel_path(rel: Seq<char>) -> bool {
    starts_with(rel, "kernel"@)
}

/// Whether the file at the relative path `rel` is checked by default.
pub fn is_kernel_path(rel: &str) -> (b: bool)
    ensures
        b == kernel_path(rel@),
{
    let r = chars_of(rel);
    starts_with_str(&r, "kernel")
}

// ---------------------------------------------------------------- ordering

/// `a` comes no later than `b` in lexicographic order of code points
/// (the order of `str` comparison, since UTF-8 keeps code point order).
pub open spec fn seq_le(a: Seq<char>, b: Seq<char>) -> bool
    decreases a.len(),
{
    if a.len() == 0 {
        true
    } else if b.len() == 0 {
        false
    } else if a[0] != b[0] {
        a[0] < b[0]
    } else {
        seq_le(a.drop_first(), b.drop_first())
    }
}

/// Any two strings are ordered one way or the other.
pub proof fn lemma_seq_le_total(a: Seq<char>, b: Seq<char>)
    ensures
        seq_le(a, b) || seq_le(b, a),
    decreases a.len(),
{
    if a.len() > 0 && b.len() > 0 && a[0] == b[0] {
        lemma_seq_le_total(a.drop_first(), b.drop_first());
    }
}

/// The lexicographic order is transitive.
pub proof fn lemma_seq_le_trans(a: Seq<char>, b: Seq<char>, c: Seq<char>)
    requires
        seq_le(a, b),
        seq_le(b, c),
    ensures
        seq_le(a, c),
    decreases a.len(),
{
    if a.len() > 0 && b.len() > 0 && c.len() > 0 && a[0] == b[0] && b[0] == c[0] {
        lemma_seq_le_trans(a.drop_first(), b.drop_first(), c.drop_first());
    }
}

/// Strings ordered both ways are equal.
pub proof fn lemma_seq_le_antisym(a: Seq<char>, b: Seq<char>)
    requires
        seq_le(a, b),
        seq_le(b, a),
    ensures
        a == b,
    decreases a.len(),
{
    if a.len() > 0 && b.len() > 0 {
        lemma_seq_le_antisym(a.drop_first(), b.drop_first());
        assert(a =~= seq![a[0]] + a.drop_first());
        assert(b =~= seq![b[0]] + b.drop_first());
    }
}

/// Whether `a` comes no later than `b` in lexicographic order.
pub fn chars_le(a: &[char], b: &[char]) -> (r: bool)
    ensures
        r == seq_le(a@, b@),
{
    let mut i: usize = 0;
    assert(a@.skip(0) =~= a@);
    assert(b@.skip(0) =~= b@);
    while i < a.len() && i < b.len()
        invariant
            i <= a@.len(),
            i <= b@.len(),
            seq_le(a@, b@) == seq_le(a@.skip(i as int), b@.skip(i as int)),
        decreases a@.len() - i,
    {
        let x = a[i];
        let y = b[i];
        assert(a@.skip(i as int)[0] == x);
        assert(b@.skip(i as int)[0] == y);
        if x != y {
            return x < y;
        }
        assert(a@.skip(i as int).drop_first() =~= a@.skip(i + 1));
        assert(b@.skip(i as int).drop_first() =~= b@.skip(i + 1));
        i += 1;
    }
    assert(i == a@.len() ==> a@.skip(i as int).len() == 0);
    i == a.len()
}

/// Report `a` is listed no later than report `b`: more warnings first, then
/// more infos, then by path.
pub open spec fn report_le(a: FileReportView, b: FileReportView) -> bool {
    a.warnings > b.warnings || (a.warnings == b.warnings && (a.infos > b.infos || (a.infos
        == b.infos && seq_le(a.path, b.path))))
}

/// The reports are in listing order.
pub open spec fn reports_sorted(s: Seq<FileReportView>) -> bool {
    forall|i: int, j: int| 0 <= i < j < s.len() ==> report_le(#[trigger] s[i], #[trigger] s[j])
}

/// Any two reports are ordered one way or the other.
pub proof fn lemma_report_le_total(a: FileReportView, b: FileReportView)
    ensures
        report_le(a, b) || report_le(b, a),
{
    lemma_seq_le_total(a.path, b.path);
}

/// The listing order is transitive.
pub proof fn lemma_report_le_trans(a: FileReportView, b: FileReportView, c: FileReportView)
    requires
        report_le(a, b),
        report_le(b, c),
    ensures
        report_le(a, c),
{
    if a.warnings == b.warnings && b.warnings == c.warnings && a.infos == b.infos && b.infos
        == c.infos {
        lemma_seq_le_trans(a.path, b.path, c.path);
    }
}

/// Whether report `a` is listed no later than report `b`.
pub fn report_before(a: &FileReport, b: &FileReport) -> (r: bool)
    ensures
        r == report_le(a@, b@),
{
    if a.warnings != b.warnings {
        return a.warnings > b.warnings;
    }
    if a.infos != b.infos {
        return a.infos > b.infos;
    }
    chars_le(a.path.as_slice(), b.path.as_slice())
}

/// Every string comes no later than itself.
pub proof fn lemma_seq_le_refl(a: Seq<char>)
    ensures
        seq_le(a, a),
    decreases a.len(),
{
    if a.len() > 0 {
        lemma_seq_le_refl(a.drop_first());
    }
}

/// Two reports tie in the listing order: equal warnings, infos and path.
pub open spec fn same_key(a: FileReportView, b: FileReportView) -> bool {
    a.warnings == b.warnings && a.infos == b.infos && a.path == b.path
}

/// The reports of `s` that tie with `k`, in their order in `s`.
pub open spec fn tied_with(s: Seq<FileReportView>, k: FileReportView) -> Seq<FileReportView>
    decreases s.len(),
{
    if s.len() == 0 {
        Seq::empty()
    } else if same_key(s.last(), k) {
        tied_with(s.drop_last(), k).push(s.last())
    } else {
        tied_with(s.drop_last(), k)
    }
}

/// The reports that tie with `k` in `seq![x] + s`: `x` first when it ties,
/// then those of `s`.
pub proof fn lemma_tied_with_front(s: Seq<FileReportView>, k: FileReportView)
    requires
        s.len() > 0,
    ensures
        tied_with(s, k) == (if same_key(s[0], k) {
            seq![s[0]]
        } else {
            Seq::<FileReportView>::empty()
        }) + tied_with(s.drop_first(), k),
    decreases s.len(),
{
    if s.len() == 1 {
        assert(s.drop_last() =~= Seq::<FileReportView>::empty());
        assert(s.drop_first() =~= Seq::<FileReportView>::empty());
    } else {
        lemma_tied_with_front(s.drop_last(), k);
        assert(s.drop_last().drop_first() =~= s.drop_first().drop_last());
        assert(s.drop_first().last() == s.last());
    }
}

/// Inserting `x` before reports that do not tie with it adds `x` to the
/// reports tied with `k` last, when it ties with `k`.
pub proof fn lemma_tied_with_insert(s: Seq<FileReportView>, p: int, x: FileReportView, k: FileReportView)
    requires
        0 <= p <= s.len(),
        forall|j: int| p <= j < s.len() ==> !same_key(#[trigger] s[j], x),
    ensures
        tied_with(s.insert(p, x), k) == tied_with(s, k) + (if same_key(x, k) {
            seq![x]
        } else {
            Seq::<FileReportView>::empty()
        }),
    decreases s.len(),
{
    if p == s.len() {
        assert(s.insert(p, x) =~= s.push(x));
        assert(s.push(x).drop_last() =~= s);
    } else {
        let t = s.drop_last();
        assert forall|j: int| p <= j < t.len() implies !same_key(#[trigger] t[j], x) by {
            assert(t[j] == s[j]);
        }
        lemma_tied_with_insert(t, p, x, k);
        assert(s.insert(p, x).drop_last() =~= t.insert(p, x));
        assert(s.insert(p, x).last() == s.last());
        assert(!same_key(s[s.len() - 1], x));
    }
}

/// Puts the reports in listing order: most warnings first, then most
/// infos, then by path; reports that tie keep their order.
pub fn sort_reports(reports: Vec<FileReport>) -> (r: Vec<FileReport>)
    ensures
        reports_view(r@).to_multiset() == reports_view(reports@).to_multiset(),
        reports_sorted(reports_view(r@)),
        forall|k: FileReportView|
            #[trigger] tied_with(reports_view(r@), k) == tied_with(reports_view(reports@), k),
{
    broadcast use vstd::seq_lib::group_to_multiset_ensures;

    let ghost orig = reports_view(reports@);
    let mut rest = reports;
    let mut out: Vec<FileReport> = Vec::new();
    assert(reports_view(out@) =~= Seq::<FileReportView>::empty());
    assert forall|k: FileReportView| #[trigger]
        tied_with(orig, k) == tied_with(reports_view(out@), k) + tied_with(
            reports_view(rest@),
            k,
        ) by {
        assert(tied_with(reports_view(out@), k) =~= Seq::<FileReportView>::empty());
        assert(tied_with(reports_view(out@), k) + tied_with(reports_view(rest@), k)
            =~= tied_with(reports_view(rest@), k));
    }
    while rest.len() > 0
        invariant
            reports_view(out@).to_multiset().add(reports_view(rest@).to_multiset())
                == orig.to_multiset(),
            reports_sorted(reports_view(out@)),
            forall|k: FileReportView|
                #[trigger] tied_with(orig, k) == tied_with(reports_view(out@), k) + tied_with(
                    reports_view(rest@),
                    k,
                ),
        decreases rest@.len(),
    {
        let ghost rv = reports_view(rest@);
        let x = rest.remove(0);
        assert(reports_view(rest@) =~= rv.remove(0));
        assert(rv[0] == x@);
        let ghost ov = reports_view(out@);
        let mut p: usize = 0;
        while p < out.len() && report_before(&out[p], &x)
            invariant
                ov == reports_view(out@),
                p <= out@.len(),
                forall|k: int| 0 <= k < p ==> report_le(#[trigger] ov[k], x@),
            decreases out@.len() - p,
        {
            assert(ov[p as int] == out@[p as int]@);
            p += 1;
        }
        proof {
            if p < ov.len() {
                assert(ov[p as int] == out@[p as int]@);
                lemma_report_le_total(ov[p as int], x@);
            }
        }
        assert forall|j: int| p <= j < ov.len() implies !same_key(#[trigger] ov[j], x@) by {
            assert(ov[p as int] == out@[p as int]@);
            assert(!report_le(ov[p as int], x@));
            if same_key(ov[j], x@) {
                lemma_seq_le_refl(x@.path);
                assert(report_le(ov[j], x@));
                if j > p {
                    assert(report_le(ov[p as int], ov[j]));
                    lemma_report_le_trans(ov[p as int], ov[j], x@);
                }
            }
        }
        out.insert(p, x);
        let ghost nv = reports_view(out@);
        assert(nv =~= ov.insert(p as int, x@));
        assert forall|i: int, j: int| 0 <= i < j < nv.len() implies report_le(
            #[trigger] nv[i],
            #[trigger] nv[j],
        ) by {
            if i < p && j == p {
            } else if i < p && j > p {
                assert(nv[j] == ov[j - 1]);
                assert(report_le(ov[i], ov[j - 1]));
            } else if i == p && j > p {
                assert(nv[j] == ov[j - 1]);
                if j - 1 > p {
                    assert(report_le(ov[p as int], ov[j - 1]));
                    lemma_report_le_trans(x@, ov[p as int], ov[j - 1]);
                }
            } else if i > p {
                assert(nv[i] == ov[i - 1]);
                assert(nv[j] == ov[j - 1]);
            } else {
                assert(nv[i] == ov[i]);
                assert(nv[j] == ov[j]);
            }
        }
        proof {
            vstd::seq_lib::to_multiset_insert(ov, p as int, x@);
            vstd::seq_lib::to_multiset_remove(rv, 0);
        }
        assert(reports_view(out@).to_multiset() == ov.to_multiset().insert(x@));
        assert(reports_view(rest@).to_multiset() == rv.to_multiset().remove(x@));
        assert(rv.to_multiset().count(x@) > 0) by {
            assert(rv.contains(x@)) by {
                assert(rv[0] == x@);
            }
            vstd::seq_lib::to_multiset_contains(rv, x@);
        }
        assert(reports_view(out@).to_multiset().add(reports_view(rest@).to_multiset())
            =~= ov.to_multiset().add(rv.to_multiset()));
        assert forall|k: FileReportView| #[trigger]
            tied_with(orig, k) == tied_with(reports_view(out@), k) + tied_with(
                reports_view(rest@),
                k,
            ) by {
            lemma_tied_with_insert(ov, p as int, x@, k);
            lemma_tied_with_front(rv, k);
            assert(rv.drop_first() =~= reports_view(rest@));
            assert(tied_with(orig, k) == tied_with(ov, k) + tied_with(rv, k));
            let e = if same_key(x@, k) {
                seq![x@]
            } else {
                Seq::<FileReportView>::empty()
            };
            assert(tied_with(ov, k) + tied_with(rv, k) =~= (tied_with(ov, k) + e) + tied_with(
                rv.drop_first(),
                k,
            ));
        }
    }
    assert(reports_view(rest@) =~= Seq::<FileReportView>::empty());
    assert(reports_view(rest@).to_multiset() =~= Multiset::empty());
    assert forall|k: FileReportView| #[trigger]
        tied_with(reports_view(out@), k) == tied_with(orig, k) by {
        assert(tied_with(reports_view(rest@), k) =~= Seq::<FileReportView>::empty());
        assert(tied_with(reports_view(out@), k) + tied_with(reports_view(rest@), k)
            =~= tied_with(reports_view(out@), k));
    }
    assert(reports_view(out@).to_multiset().add(Multiset::empty()) =~= reports_view(out@).to_multiset());
    out
}

// ---------------------------------------------------------------- listing

/// The total of the warnings of the reports.
pub open spec fn total_warnings(s: Seq<FileReportView>) -> nat
    decreases s.len(),
{
    if s.len() == 0 {
        0
    } else {
        total_warnings(s.drop_last()) + s.last().warnings
    }
}

/// The total of the infos of the reports.
pub open spec fn total_infos(s: Seq<FileReportView>) -> nat
    decreases s.len(),
{
    if s.len() == 0 {
        0
    } else {
        total_infos(s.drop_last()) + s.last().infos
    }
}

/// A total over a prefix is at most the total over the whole.
pub proof fn lemma_totals_monotone(s: Seq<FileReportView>, k: int)
    requires
        0 <= k <= s.len(),
    ensures
        total_warnings(s.subrange(0, k)) <= total_warnings(s),
        total_infos(s.subrange(0, k)) <= total_infos(s),
    decreases s.len() - k,
{
    if k < s.len() {
        lemma_totals_monotone(s, k + 1);
        assert(s.subrange(0, k + 1).drop_last() =~= s.subrange(0, k));
    } else {
        assert(s.subrange(0, k) =~= s);
    }
}

/// Whether the warning and info totals of the reports fit a `usize`.
pub fn totals_fit(reports: &Vec<FileReport>) -> (b: bool)
    ensures
        b == (total_warnings(reports_view(reports@)) <= usize::MAX && total_infos(
            reports_view(reports@),
        ) <= usize::MAX),
{
    let ghost v = reports_view(reports@);
    let mut w: usize = 0;
    let mut n: usize = 0;
    let mut k: usize = 0;
    while k < reports.len()
        invariant
            v == reports_view(reports@),
            k <= reports@.len(),
            w == total_warnings(v.subrange(0, k as int)),
            n == total_infos(v.subrange(0, k as int)),
        decreases reports@.len() - k,
    {
        assert(v.subrange(0, k + 1).drop_last() =~= v.subrange(0, k as int));
        assert(v[k as int] == reports@[k as int]@);
        proof {
            lemma_totals_monotone(v, k + 1);
        }
        if reports[k].warnings > usize::MAX - w || reports[k].infos > usize::MAX - n {
            return false;
        }
        w = w + reports[k].warnings;
        n = n + reports[k].infos;
        k += 1;
    }
    assert(v.subrange(0, k as int) =~= v);
    true
}

/// The total numbers of warnings and infos over all reports.
pub fn totals(reports: &Vec<FileReport>) -> (r: (usize, usize))
    requires
        total_warnings(reports_view(reports@)) <= usize::MAX,
        total_infos(reports_view(reports@)) <= usize::MAX,
    ensures
        r.0 == total_warnings(reports_view(reports@)),
        r.1 == total_infos(reports_view(reports@)),
{
    let ghost v = reports_view(reports@);
    let mut w: usize = 0;
    let mut n: usize = 0;
    let mut k: usize = 0;
    while k < reports.len()
        invariant
            v == reports_view(reports@),
            k <= reports@.len(),
            total_warnings(v) <= usize::MAX,
            total_infos(v) <= usize::MAX,
            w == total_warnings(v.subrange(0, k as int)),
            n == total_infos(v.subrange(0, k as int)),
        decreases reports@.len() - k,
    {
        assert(v.subrange(0, k + 1).drop_last() =~= v.subrange(0, k as int));
        assert(v[k as int] == reports@[k as int]@);
        proof {
            lemma_totals_monotone(v, k + 1);
        }
        w = w + reports[k].warnings;
        n = n + reports[k].infos;
        k += 1;
    }
    assert(v.subrange(0, k as int) =~= v);
    (w, n)
}

/// The report has something to show.
pub open spec fn has_findings(r: FileReportView) -> bool {
    r.warnings > 0 || r.infos > 0
}

/// The reports that have something to show, in order.
pub open spec fn with_findings(s: Seq<FileReportView>) -> Seq<FileReportView>
    decreases s.len(),
{
    if s.len() == 0 {
        s
    } else if has_findings(s.last()) {
        with_findings(s.drop_last()).push(s.last())
    } else {
        with_findings(s.drop_last())
    }
}

/// Keeps the reports that have a warning or an info, in order.
pub fn keep_with_findings(reports: Vec<FileReport>) -> (r: Vec<FileReport>)
    ensures
        reports_view(r@) == with_findings(reports_view(reports@)),
{
    let ghost v = reports_view(reports@);
    let mut rest = reports;
    let mut out: Vec<FileReport> = Vec::new();
    let ghost mut k: int = 0;
    assert(v.subrange(0, 0) =~= Seq::<FileReportView>::empty());
    assert(reports_view(rest@) =~= v.subrange(0, v.len() as int));
    while rest.len() > 0
        invariant
            0 <= k <= v.len(),
            reports_view(rest@) == v.subrange(k, v.len() as int),
            reports_view(out@) == with_findings(v.subrange(0, k)),
        decreases rest@.len(),
    {
        let ghost rv = reports_view(rest@);
        assert(rv.len() == rest@.len());
        let x = rest.remove(0);
        assert(rv[0] == x@);
        assert(x@ == v[k]);
        assert(reports_view(rest@) =~= rv.remove(0));
        assert(reports_view(rest@) =~= v.subrange(k + 1, v.len() as int));
        assert(v.subrange(0, k + 1).drop_last() =~= v.subrange(0, k));
        let ghost before = reports_view(out@);
        if x.warnings > 0 || x.infos > 0 {
            out.push(x);
            assert(reports_view(out@) =~= before.push(v[k]));
        }
        proof {
            k = k + 1;
        }
    }
    assert(k == v.len());
    assert(v.subrange(0, k) =~= v);
    out
}

/// Every report that the filter keeps is one of the given reports, at a
/// position no later than the number kept before it allows.
pub proof fn lemma_with_findings_from(s: Seq<FileReportView>, k: int)
    requires
        0 <= k < with_findings(s).len(),
    ensures
        exists|j: int| 0 <= j < s.len() && #[trigger] s[j] == with_findings(s)[k],
    decreases s.len(),
{
    if s.len() > 0 {
        let p = s.drop_last();
        if has_findings(s.last()) && k == with_findings(p).len() {
            assert(s[s.len() - 1] == with_findings(s)[k]);
        } else {
            lemma_with_findings_from(p, k);
            let j = choose|j: int| 0 <= j < p.len() && #[trigger] p[j] == with_findings(p)[k];
            assert(s[j] == with_findings(s)[k]);
        }
    }
}

/// The filtered list keeps the listing order: dropping the reports with
/// nothing to show from a sorted list leaves it sorted.
pub proof fn law_filter_keeps_order(s: Seq<FileReportView>)
    requires
        reports_sorted(s),
    ensures
        reports_sorted(with_findings(s)),
    decreases s.len(),
{
    if s.len() > 0 {
        let p = s.drop_last();
        assert(reports_sorted(p)) by {
            assert forall|i: int, j: int| 0 <= i < j < p.len() implies report_le(
                #[trigger] p[i],
                #[trigger] p[j],
            ) by {
                assert(p[i] == s[i] && p[j] == s[j]);
            }
        }
        law_filter_keeps_order(p);
        if has_findings(s.last()) {
            let w = with_findings(s);
            let wp = with_findings(p);
            assert forall|i: int, j: int| 0 <= i < j < w.len() implies report_le(
                #[trigger] w[i],
                #[trigger] w[j],
            ) by {
                if j < wp.len() {
                    assert(w[i] == wp[i] && w[j] == wp[j]);
                } else {
                    lemma_with_findings_from(p, i);
                    let q = choose|q: int| 0 <= q < p.len() && #[trigger] p[q] == wp[i];
                    assert(w[i] == wp[i]);
                    assert(w[j] == s.last());
                    assert(s[q] == p[q]);
                    assert(report_le(s[q], s[s.len() - 1]));
                }
            }
        }
    }
}

/// The totals do not change when the reports with nothing to show are
/// dropped: the header counts the same findings as the list shows.
pub proof fn law_filter_keeps_totals(s: Seq<FileReportView>)
    ensures
        total_warnings(with_findings(s)) == total_warnings(s),
        total_infos(with_findings(s)) == total_infos(s),
    decreases s.len(),
{
    if s.len() > 0 {
        let p = s.drop_last();
        law_filter_keeps_totals(p);
        if has_findings(s.last()) {
            assert(with_findings(s).drop_last() =~= with_findings(p));
        }
    }
}

// ---------------------------------------------------------------- navigation

/// Number of tabs of the detail panel: summary, warnings, infos.
pub const TAB_COUNT: usize = 3;

/// A key press, as far as the viewer tells keys apart.
#[derive(Debug, Clone, Copy, PartialEq, Eq, Structural)]
pub enum NavKey {
    Char(char),
    Up,
    Down,
    Left,
    Right,
    Esc,
    Other,
}

/// What the viewer shows: the selected file of the list, the tab of the
/// detail panel, and how many files the list has.
pub struct Nav {
    selected: Option<usize>,
    tab: usize,
    len: usize,
}

/// The selection after moving up from `sel`.
pub open spec fn sel_up(sel: Option<usize>) -> Option<usize> {
    let i = match sel {
        Some(i) => i,
        None => 0,
    };
    if i > 0 {
        Some((i - 1) as usize)
    } else {
        sel
    }
}

/// The selection after moving down from `sel` in a list of `len` files.
pub open spec fn sel_down(sel: Option<usize>, len: usize) -> Option<usize> {
    let i = match sel {
        Some(i) => i,
        None => 0,
    };
    if i + 1 < len {
        Some((i + 1) as usize)
    } else {
        sel
    }
}

/// What a key does: whether it quits, and the selection and tab after it.
pub open spec fn spec_key(sel: Option<usize>, tab: usize, len: usize, key: NavKey) -> (
    bool,
    Option<usize>,
    usize,
) {
    if key == NavKey::Esc || key == NavKey::Char('q') {
        (true, sel, tab)
    } else if key == NavKey::Up || key == NavKey::Char('k') {
        (false, sel_up(sel), tab)
    } else if key == NavKey::Down || key == NavKey::Char('j') {
        (false, sel_down(sel, len), tab)
    } else if key == NavKey::Left || key == NavKey::Char('h') {
        (false, sel, if tab > 0 {
            (tab - 1) as usize
        } else {
            0
        })
    } else if key == NavKey::Right || key == NavKey::Char('l') {
        (false, sel, if tab + 1 < TAB_COUNT {
            (tab + 1) as usize
        } else {
            tab
        })
    } else if key == NavKey::Char('1') {
        (false, sel, 0)
    } else if key == NavKey::Char('2') {
        (false, sel, 1)
    } else if key == NavKey::Char('3') {
        (false, sel, 2)
    } else {
        (false, sel, tab)
    }
}

impl Nav {
    /// The selected position of the list.
    pub closed spec fn spec_selected(&self) -> Option<usize> {
        self.selected
    }

    /// The active tab.
    pub closed spec fn spec_tab(&self) -> usize {
        self.tab
    }

    /// How many files the list has.
    pub closed spec fn spec_len(&self) -> usize {
        self.len
    }

    /// The tab is one of the tabs, and the selection is the first position
    /// or a position of the list.
    pub open spec fn wf(&self) -> bool {
        &&& self.spec_tab() < TAB_COUNT
        &&& self.spec_selected() matches Some(i) ==> i == 0 || i < self.spec_len()
    }

    /// The viewer of a list of `len` files: the first one selected, the
    /// summary tab active.
    pub fn new(len: usize) -> (n: Self)
        ensures
            n.wf(),
            n.spec_selected() == Some(0usize),
            n.spec_tab() == 0,
            n.spec_len() == len,
    {
        Nav { selected: Some(0), tab: 0, len }
    }

    /// The active tab.
    pub fn tab(&self) -> (t: usize)
        ensures
            t == self.spec_tab(),
    {
        self.tab
    }

    /// The selected position of the list.
    pub fn selected(&self) -> (s: Option<usize>)
        ensures
            s == self.spec_selected(),
    {
        self.selected
    }

    /// The file whose details are shown: the selection, when it is a
    /// position of the list.
    pub fn shown(&self) -> (s: Option<usize>)
        ensures
            s == (match self.spec_selected() {
                Some(i) => if i < self.spec_len() {
                    Some(i)
                } else {
                    None
                },
                None => None,
            }),
    {
        match self.selected {
            Some(i) => if i < self.len {
                Some(i)
            } else {
                None
            },
            None => None,
        }
    }

    /// Handles a key press; true when it quits the viewer.
    pub fn handle_key(&mut self, key: NavKey) -> (quit: bool)
        requires
            old(self).wf(),
        ensures
            final(self).wf(),
            final(self).spec_len() == old(self).spec_len(),
            (quit, final(self).spec_selected(), final(self).spec_tab()) == spec_key(
                old(self).spec_selected(),
                old(self).spec_tab(),
                old(self).spec_len(),
                key,
            ),
    {
        let i = match self.selected {
            Some(i) => i,
            None => 0,
        };
        match key {
            NavKey::Esc | NavKey::Char('q') => {
                return true;
            },
            NavKey::Up | NavKey::Char('k') => {
                if i > 0 {
                    self.selected = Some(i - 1);
                }
            },
            NavKey::Down | NavKey::Char('j') => {
                if i + 1 < self.len {
                    self.selected = Some(i + 1);
                }
            },
            NavKey::Left | NavKey::Char('h') => {
                self.tab = if self.tab > 0 {
                    self.tab - 1
                } else {
                    0
                };
            },
            NavKey::Right | NavKey::Char('l') => {
                if self.tab + 1 < TAB_COUNT {
                    self.tab += 1;
                }
            },
            NavKey::Char('1') => {
                self.tab = 0;
            },
            NavKey::Char('2') => {
                self.tab = 1;
            },
            NavKey::Char('3') => {
                self.tab = 2;
            },
            _ => {},
        }
        false
    }
}

// ---------------------------------------------------------------- detail panel

/// The issue kinds in the order of their labels.
pub open spec fn kind_order() -> Seq<IssueKind> {
    seq![
        IssueKind::DeadCode,
        IssueKind::DeepNesting,
        IssueKind::Duplicate,
        IssueKind::LineTooLong,
        IssueKind::LongFn,
        IssueKind::MagicNumber,
        IssueKind::MissingDoc,
        IssueKind::NoEofNewline,
        IssueKind::TodoFixme,
        IssueKind::TrailingWhitespace,
        IssueKind::Unsafe,
        IssueKind::Unwrap,
    ]
}

/// Number of issue kinds.
pub const KIND_COUNT: usize = 12;

/// The kind at position `i` of the label order.
pub fn kind_at(i: usize) -> (k: IssueKind)
    requires
        i < KIND_COUNT,
    ensures
        k == kind_order()[i as int],
{
    match i {
        0 => IssueKind::DeadCode,
        1 => IssueKind::DeepNesting,
        2 => IssueKind::Duplicate,
        3 => IssueKind::LineTooLong,
        4 => IssueKind::LongFn,
        5 => IssueKind::MagicNumber,
        6 => IssueKind::MissingDoc,
        7 => IssueKind::NoEofNewline,
        8 => IssueKind::TodoFixme,
        9 => IssueKind::TrailingWhitespace,
        10 => IssueKind::Unsafe,
        _ => IssueKind::Unwrap,
    }
}

/// Two strings that agree before position `i` and differ there in favour
/// of `a` are in strict lexicographic order.
pub proof fn lemma_seq_lt_at(a: Seq<char>, b: Seq<char>, i: int)
    requires
        0 <= i < a.len(),
        i < b.len(),
        forall|j: int| 0 <= j < i ==> a[j] == b[j],
        a[i] < b[i],
    ensures
        seq_le(a, b),
        a != b,
    decreases i,
{
    if i > 0 {
        assert(a[0] == b[0]);
        assert forall|j: int| 0 <= j < i - 1 implies a.drop_first()[j] == b.drop_first()[j] by {
            assert(a[j + 1] == b[j + 1]);
        }
        lemma_seq_lt_at(a.drop_first(), b.drop_first(), i - 1);
    }
    assert(a[i] != b[i]);
}

/// The kinds are listed in the order of their labels, as a map keyed by
/// label lists them: each label comes strictly before the next.
pub proof fn law_kind_order_by_label()
    ensures
        forall|i: int|
            0 <= i < KIND_COUNT - 1 ==> seq_le(
                #[trigger] kind_label(kind_order()[i]),
                kind_label(kind_order()[i + 1]),
            ) && kind_label(kind_order()[i]) != kind_label(kind_order()[i + 1]),
{
    reveal_strlit("dead-code");
    reveal_strlit("deep-nesting");
    reveal_strlit("duplicate");
    reveal_strlit("line-too-long");
    reveal_strlit("long-fn");
    reveal_strlit("magic-number");
    reveal_strlit("missing-doc");
    reveal_strlit("no-eof-newline");
    reveal_strlit("todo/fixme");
    reveal_strlit("trailing-whitespace");
    reveal_strlit("unsafe");
    reveal_strlit("unwrap");
    let o = kind_order();
    lemma_seq_lt_at("dead-code"@, "deep-nesting"@, 2);
    lemma_seq_lt_at("deep-nesting"@, "duplicate"@, 1);
    lemma_seq_lt_at("duplicate"@, "line-too-long"@, 0);
    lemma_seq_lt_at("line-too-long"@, "long-fn"@, 1);
    lemma_seq_lt_at("long-fn"@, "magic-number"@, 0);
    lemma_seq_lt_at("magic-number"@, "missing-doc"@, 1);
    lemma_seq_lt_at("missing-doc"@, "no-eof-newline"@, 0);
    lemma_seq_lt_at("no-eof-newline"@, "todo/fixme"@, 0);
    lemma_seq_lt_at("todo/fixme"@, "trailing-whitespace"@, 1);
    lemma_seq_lt_at("trailing-whitespace"@, "unsafe"@, 0);
    lemma_seq_lt_at("unsafe"@, "unwrap"@, 2);
    assert forall|i: int| 0 <= i < KIND_COUNT - 1 implies seq_le(
        #[trigger] kind_label(o[i]),
        kind_label(o[i + 1]),
    ) && kind_label(o[i]) != kind_label(o[i + 1]) by {
        if i == 0 {
        } else if i == 1 {
        } else if i == 2 {
        } else if i == 3 {
        } else if i == 4 {
        } else if i == 5 {
        } else if i == 6 {
        } else if i == 7 {
        } else if i == 8 {
        } else if i == 9 {
        } else {
        }
    }
}

/// How many issues have severity `s` and kind `k`.
pub open spec fn count_kind(v: Seq<IssueView>, s: Severity, k: IssueKind) -> nat
    decreases v.len(),
{
    if v.len() == 0 {
        0
    } else {
        count_kind(v.drop_last(), s, k) + if v.last().severity == s && v.last().kind == k {
            1nat
        } else {
            0nat
        }
    }
}

/// The kinds among the first `n` of the label order that issues of
/// severity `s` have, each with its count.
pub open spec fn counts_upto(v: Seq<IssueView>, s: Severity, n: nat) -> Seq<(IssueKind, nat)>
    decreases n,
{
    if n == 0 {
        Seq::empty()
    } else {
        let k = kind_order()[n - 1];
        let c = count_kind(v, s, k);
        counts_upto(v, s, (n - 1) as nat) + if c > 0 {
            seq![(k, c)]
        } else {
            Seq::empty()
        }
    }
}

/// The kinds that issues of severity `s` have, in label order, each with
/// its count.
pub open spec fn spec_kind_counts(v: Seq<IssueView>, s: Severity) -> Seq<(IssueKind, nat)> {
    counts_upto(v, s, KIND_COUNT as nat)
}

/// Counts the issues of severity `s` and kind `k`.
pub fn count_of_kind(issues: &Vec<Issue>, s: Severity, k: IssueKind) -> (n: usize)
    ensures
        n == count_kind(issues_view(issues@), s, k),
{
    let ghost v = issues_view(issues@);
    let mut n: usize = 0;
    let mut j: usize = 0;
    while j < issues.len()
        invariant
            v == issues_view(issues@),
            j <= issues@.len(),
            n == count_kind(v.subrange(0, j as int), s, k),
            n <= j,
        decreases issues@.len() - j,
    {
        assert(v.subrange(0, j + 1).drop_last() =~= v.subrange(0, j as int));
        assert(v[j as int] == issues@[j as int]@);
        if issues[j].severity == s && issues[j].kind == k {
            n += 1;
        }
        j += 1;
    }
    assert(v.subrange(0, j as int) =~= v);
    n
}

/// Groups the issues of severity `s` by kind: the kinds present, in label
/// order, with their counts.
pub fn kind_counts(issues: &Vec<Issue>, s: Severity) -> (r: Vec<(IssueKind, usize)>)
    ensures
        r@.map_values(|p: (IssueKind, usize)| (p.0, p.1 as nat)) == spec_kind_counts(
            issues_view(issues@),
            s,
        ),
{
    let ghost v = issues_view(issues@);
    let mut r: Vec<(IssueKind, usize)> = Vec::new();
    let mut i: usize = 0;
    assert(r@.map_values(|p: (IssueKind, usize)| (p.0, p.1 as nat)) =~= counts_upto(v, s, 0));
    while i < KIND_COUNT
        invariant
            v == issues_view(issues@),
            i <= KIND_COUNT,
            r@.map_values(|p: (IssueKind, usize)| (p.0, p.1 as nat)) == counts_upto(
                v,
                s,
                i as nat,
            ),
        decreases KIND_COUNT - i,
    {
        let k = kind_at(i);
        let c = count_of_kind(issues, s, k);
        let ghost before = r@.map_values(|p: (IssueKind, usize)| (p.0, p.1 as nat));
        if c > 0 {
            r.push((k, c));
            assert(r@.map_values(|p: (IssueKind, usize)| (p.0, p.1 as nat)) =~= before.push(
                (k, c as nat),
            ));
        }
        assert(counts_upto(v, s, (i + 1) as nat) == counts_upto(v, s, i as nat) + if c > 0 {
            seq![(k, c as nat)]
        } else {
            Seq::<(IssueKind, nat)>::empty()
        });
        i += 1;
    }
    r
}

/// The positions of the issues of severity `s`.
pub open spec fn sev_positions(v: Seq<IssueView>, s: Severity) -> Seq<nat>
    decreases v.len(),
{
    if v.len() == 0 {
        Seq::empty()
    } else if v.last().severity == s {
        sev_positions(v.drop_last(), s).push((v.len() - 1) as nat)
    } else {
        sev_positions(v.drop_last(), s)
    }
}

/// How many issues of one severity the detail panel lists.
pub const PAGE_LIMIT: usize = 100;

/// The issues of severity `s` that the detail panel lists: the positions
/// of the first `PAGE_LIMIT` of them, and how many more there are when
/// there are more.
pub fn issues_page(issues: &Vec<Issue>, s: Severity) -> (r: (Vec<usize>, Option<usize>))
    ensures
        ({
            let p = sev_positions(issues_view(issues@), s);
            &&& r.0@.map_values(|i: usize| i as nat) == if p.len() > PAGE_LIMIT {
                p.subrange(0, PAGE_LIMIT as int)
            } else {
                p
            }
            &&& r.1 == if p.len() > PAGE_LIMIT {
                Some((p.len() - PAGE_LIMIT) as usize)
            } else {
                None
            }
        }),
{
    let ghost v = issues_view(issues@);
    let mut shown: Vec<usize> = Vec::new();
    let mut count: usize = 0;
    let mut j: usize = 0;
    assert(shown@.map_values(|i: usize| i as nat) =~= sev_positions(v.subrange(0, 0), s));
    while j < issues.len()
        invariant
            v == issues_view(issues@),
            j <= issues@.len(),
            count == sev_positions(v.subrange(0, j as int), s).len(),
            count <= j,
            shown@.map_values(|i: usize| i as nat) == if count > PAGE_LIMIT {
                sev_positions(v.subrange(0, j as int), s).subrange(0, PAGE_LIMIT as int)
            } else {
                sev_positions(v.subrange(0, j as int), s)
            },
        decreases issues@.len() - j,
    {
        let ghost pre = v.subrange(0, j as int);
        let ghost next = v.subrange(0, j + 1);
        assert(next.drop_last() =~= pre);
        assert(v[j as int] == issues@[j as int]@);
        let ghost before = shown@.map_values(|i: usize| i as nat);
        if issues[j].severity == s {
            if count < PAGE_LIMIT {
                shown.push(j);
                assert(shown@.map_values(|i: usize| i as nat) =~= before.push(j as nat));
            }
            count += 1;
            assert(shown@.map_values(|i: usize| i as nat) =~= if count > PAGE_LIMIT {
                sev_positions(next, s).subrange(0, PAGE_LIMIT as int)
            } else {
                sev_positions(next, s)
            });
        }
        j += 1;
    }
    assert(v.subrange(0, j as int) =~= v);
    let more = if count > PAGE_LIMIT {
        Some(count - PAGE_LIMIT)
    } else {
        None
    };
    (shown, more)
}

/// The header line of the viewer.
pub open spec fn header_text(files: nat, shown: nat, warnings: nat, infos: nat) -> Seq<char> {
    " CodeCheck  "@ + decimal(files) + " files scanned, "@ + decimal(shown) + " with issues  "@
        + decimal(warnings) + "W  "@ + decimal(infos) + "I    [1-3 tabs  j/k nav  q quit]"@
}

/// Builds the header line: files scanned, files with findings, and the
/// warning and info totals.
pub fn header_line(files: usize, shown: usize, warnings: usize, infos: usize) -> (r: Vec<char>)
    ensures
        r@ == header_text(files as nat, shown as nat, warnings as nat, infos as nat),
{
    let mut r: Vec<char> = Vec::new();
    push_str(&mut r, " CodeCheck  ");
    push_decimal(&mut r, files as u64);
    push_str(&mut r, " files scanned, ");
    push_decimal(&mut r, shown as u64);
    push_str(&mut r, " with issues  ");
    push_decimal(&mut r, warnings as u64);
    push_str(&mut r, "W  ");
    push_decimal(&mut r, infos as u64);
    push_str(&mut r, "I    [1-3 tabs  j/k nav  q quit]");
    r
}

/// The counts line of a file's summary.
pub open spec fn counts_text(warnings: nat, infos: nat) -> Seq<char> {
    "  "@ + decimal(warnings) + " warnings, "@ + decimal(infos) + " infos\n"@
}

/// Builds the counts line of a file's summary.
pub fn counts_line(warnings: usize, infos: usize) -> (r: Vec<char>)
    ensures
        r@ == counts_text(warnings as nat, infos as nat),
{
    let mut r: Vec<char> = Vec::new();
    push_str(&mut r, "  ");
    push_decimal(&mut r, warnings as u64);
    push_str(&mut r, " warnings, ");
    push_decimal(&mut r, infos as u64);
    push_str(&mut r, " infos\n");
    r
}

/// The line of a file's summary for one kind of issue.
pub open spec fn kind_count_text(count: nat, kind: IssueKind) -> Seq<char> {
    "   "@ + decimal(count) + "  "@ + kind_label(kind)
}

/// Builds the line of a file's summary for one kind of issue.
pub fn kind_count_line(count: usize, kind: IssueKind) -> (r: Vec<char>)
    ensures
        r@ == kind_count_text(count as nat, kind),
{
    let mut r: Vec<char> = Vec::new();
    push_str(&mut r, "   ");
    push_decimal(&mut r, count as u64);
    push_str(&mut r, "  ");
    push_str(&mut r, kind.label());
    r
}

/// The line that closes a capped list of issues.
pub open spec fn more_text(n: nat) -> Seq<char> {
    "  ... "@ + decimal(n) + " more issues"@
}

/// Builds the line that closes a capped list of issues.
pub fn more_line(n: usize) -> (r: Vec<char>)
    ensures
        r@ == more_text(n as nat),
{
    let mut r: Vec<char> = Vec::new();
    push_str(&mut r, "  ... ");
    push_decimal(&mut r, n as u64);
    push_str(&mut r, " more issues");
    r
}


/// Paths of more UTF-8 bytes than this are cut in the file list.
pub const PATH_SHOWN: usize = 48;

/// How many bytes of a cut path the file list keeps, from its end.
pub const PATH_TAIL: usize = 45;

/// Width of the file list's name column, in bytes.
pub const NAME_COLUMN: usize = 55;

/// The last characters of `p` that take `n` UTF-8 bytes (when the cut
/// falls between characters, see `tail_on_boundary`).
pub open spec fn utf8_tail(p: Seq<char>, n: nat) -> Seq<char>
    decreases p.len(),
{
    if n == 0 || p.len() == 0 || utf8_width(p.last()) > n {
        Seq::empty()
    } else {
        utf8_tail(p.drop_last(), (n - utf8_width(p.last())) as nat).push(p.last())
    }
}

/// The last `n` UTF-8 bytes of `p` are whole characters: cutting there
/// does not split one (slicing the string there does not panic).
pub open spec fn tail_on_boundary(p: Seq<char>, n: nat) -> bool
    decreases p.len(),
{
    if n == 0 {
        true
    } else if p.len() == 0 {
        false
    } else {
        utf8_width(p.last()) <= n && tail_on_boundary(p.drop_last(), (n - utf8_width(p.last())) as nat)
    }
}

/// The path as the file list shows it: whole, or `...` and its last
/// `PATH_TAIL` bytes when it has more than `PATH_SHOWN`.
pub open spec fn row_path(p: Seq<char>) -> Seq<char> {
    if utf8_len(p) > PATH_SHOWN {
        "..."@ + utf8_tail(p, PATH_TAIL as nat)
    } else {
        p
    }
}

/// The spaces after the path that fill the name column, counted from the
/// path's length in bytes, as at most `PATH_SHOWN`.
pub open spec fn row_padding(p: Seq<char>) -> Seq<char> {
    let shown = if utf8_len(p) < PATH_SHOWN {
        utf8_len(p)
    } else {
        PATH_SHOWN as nat
    };
    Seq::new((NAME_COLUMN - shown) as nat, |i: int| ' ')
}

/// A count column of the file list: a space, the count and `tag`, or two
/// spaces when the count is zero.
pub open spec fn count_cell(n: nat, tag: char) -> Seq<char> {
    if n > 0 {
        seq![' '] + decimal(n) + seq![tag]
    } else {
        "  "@
    }
}

/// The pieces of one row of the file list, each drawn in its own style.
pub struct ListRow {
    pub path: Vec<char>,
    pub padding: Vec<char>,
    pub warnings: Vec<char>,
    pub infos: Vec<char>,
}

/// The UTF-8 width of `c`.
fn char_width(c: char) -> (w: usize)
    ensures
        w == utf8_width(c),
{
    let u = c as u32;
    if u < 0x80 {
        1
    } else if u < 0x800 {
        2
    } else if u < 0x1_0000 {
        3
    } else {
        4
    }
}

/// Builds a count column of the file list.
fn count_cell_of(n: usize, tag: char) -> (r: Vec<char>)
    ensures
        r@ == count_cell(n as nat, tag),
{
    let mut r: Vec<char> = Vec::new();
    if n > 0 {
        r.push(' ');
        push_decimal(&mut r, n as u64);
        r.push(tag);
        assert(r@ =~= seq![' '] + decimal(n as nat) + seq![tag]);
    } else {
        push_str(&mut r, "  ");
        assert(r@ =~= "  "@);
    }
    r
}

/// The characters of `p` that take its last `PATH_TAIL` bytes.
fn path_tail(p: &Vec<char>) -> (r: Vec<char>)
    requires
        tail_on_boundary(p@, PATH_TAIL as nat),
    ensures
        r@ == utf8_tail(p@, PATH_TAIL as nat),
{
    let len = p.len();
    let mut j: usize = len;
    let mut need: usize = PATH_TAIL;
    assert(p@.subrange(0, len as int) =~= p@);
    assert(p@.subrange(len as int, len as int) =~= Seq::<char>::empty());
    while need > 0
        invariant
            len == p@.len(),
            j <= len,
            need <= PATH_TAIL,
            tail_on_boundary(p@.subrange(0, j as int), need as nat),
            utf8_tail(p@, PATH_TAIL as nat) == utf8_tail(p@.subrange(0, j as int), need as nat)
                + p@.subrange(j as int, len as int),
        decreases j,
    {
        let ghost q = p@.subrange(0, j as int);
        assert(q.len() > 0);
        assert(q.last() == p@[j - 1]);
        assert(q.drop_last() =~= p@.subrange(0, j - 1));
        let w = char_width(p[j - 1]);
        assert(utf8_tail(q, need as nat) == utf8_tail(q.drop_last(), (need - w) as nat).push(
            q.last(),
        ));
        assert(utf8_tail(q.drop_last(), (need - w) as nat).push(q.last()) + p@.subrange(
            j as int,
            len as int,
        ) =~= utf8_tail(q.drop_last(), (need - w) as nat) + p@.subrange(j - 1, len as int));
        need = need - w;
        j = j - 1;
    }
    let mut r: Vec<char> = Vec::new();
    let mut k: usize = j;
    while k < len
        invariant
            len == p@.len(),
            j <= k <= len,
            r@ == p@.subrange(j as int, k as int),
        decreases len - k,
    {
        r.push(p[k]);
        assert(r@ =~= p@.subrange(j as int, k + 1));
        k += 1;
    }
    r
}

/// The row of the file list for a file with `path`, `warnings` warnings
/// and `infos` infos: the path as shown, the padding that fills the name
/// column, and the two count columns.
pub fn list_row(path: &Vec<char>, warnings: usize, infos: usize) -> (r: ListRow)
    requires
        4 * path@.len() <= usize::MAX,
        utf8_len(path@) > PATH_SHOWN ==> tail_on_boundary(path@, PATH_TAIL as nat),
    ensures
        r.path@ == row_path(path@),
        r.padding@ == row_padding(path@),
        r.warnings@ == count_cell(warnings as nat, 'W'),
        r.infos@ == count_cell(infos as nat, 'I'),
{
    let n = utf8_length(path.as_slice());
    let shown_path = if n > PATH_SHOWN {
        let mut v: Vec<char> = Vec::new();
        push_str(&mut v, "...");
        let t = path_tail(path);
        push_chars(&mut v, &t);
        v
    } else {
        clone_chars(path)
    };
    let shown = if n < PATH_SHOWN {
        n
    } else {
        PATH_SHOWN
    };
    let count = NAME_COLUMN - shown;
    let mut padding: Vec<char> = Vec::new();
    let mut i: usize = 0;
    while i < count
        invariant
            i <= count,
            padding@ == Seq::new(i as nat, |k: int| ' '),
        decreases count - i,
    {
        padding.push(' ');
        i += 1;
        assert(padding@ =~= Seq::new(i as nat, |k: int| ' '));
    }
    ListRow {
        path: shown_path,
        padding,
        warnings: count_cell_of(warnings, 'W'),
        infos: count_cell_of(infos, 'I'),
    }
}

} // verus!
