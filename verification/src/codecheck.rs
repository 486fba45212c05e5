use vstd::prelude::*;
use crate::text::{occurs_at, match_at, trim_end, count_char, count_chars, find_char, find_first, lemma_count_char_bound, lemma_lines_total, lemma_total_len_each, lemma_total_len_prefix, lemma_trim_len, total_len, char_is_ws, is_ws, lines_view, split_lines, str_lines, decimal, push_decimal, chars_of, contains, has_prefix, has_substring, starts_with, sub_chars, trim, trim_chars};

verus! {

/// Lines longer than this many bytes are reported.
pub const MAX_LINE_LENGTH: usize = 100;

/// Functions longer than this many lines are reported.
pub const MAX_FUNCTION_LINES: usize = 50;

/// Brace nesting deeper than this is reported.
pub const MAX_NESTING_DEPTH: usize = 4;

/// Runs of at least this many equal lines are reported as duplicates.
pub const DUPLICATE_MIN_LINES: usize = 5;

/// How serious an issue is.
#[derive(Debug, Clone, Copy, PartialEq, Eq, Structural)]
pub enum Severity {
    Error,
    Warning,
    Info,
}

/// What an issue is about.
#[derive(Debug, Clone, Copy, PartialEq, Eq, Structural)]
pub enum IssueKind {
    TrailingWhitespace,
    LineTooLong,
    NoEofNewline,
    TodoFixme,
    Unsafe,
    Unwrap,
    MissingDoc,
    DeepNesting,
    MagicNumber,
    LongFn,
    DeadCode,
    Duplicate,
}

/// The name the report shows for an issue kind.
pub open spec fn kind_label(k: IssueKind) -> Seq<char> {
    match k {
        IssueKind::TrailingWhitespace => "trailing-whitespace"@,
        IssueKind::LineTooLong => "line-too-long"@,
        IssueKind::NoEofNewline => "no-eof-newline"@,
        IssueKind::TodoFixme => "todo/fixme"@,
        IssueKind::Unsafe => "unsafe"@,
        IssueKind::Unwrap => "unwrap"@,
        IssueKind::MissingDoc => "missing-doc"@,
        IssueKind::DeepNesting => "deep-nesting"@,
        IssueKind::MagicNumber => "magic-number"@,
        IssueKind::LongFn => "long-fn"@,
        IssueKind::DeadCode => "dead-code"@,
        IssueKind::Duplicate => "duplicate"@,
    }
}

impl IssueKind {
    /// The name the report shows for this kind.
    pub fn label(&self) -> (r: &'static str)
        ensures
            r@ == kind_label(*self),
    {
        match self {
            IssueKind::TrailingWhitespace => "trailing-whitespace",
            IssueKind::LineTooLong => "line-too-long",
            IssueKind::NoEofNewline => "no-eof-newline",
            IssueKind::TodoFixme => "todo/fixme",
            IssueKind::Unsafe => "unsafe",
            IssueKind::Unwrap => "unwrap",
            IssueKind::MissingDoc => "missing-doc",
            IssueKind::DeepNesting => "deep-nesting",
            IssueKind::MagicNumber => "magic-number",
            IssueKind::LongFn => "long-fn",
            IssueKind::DeadCode => "dead-code",
            IssueKind::Duplicate => "duplicate",
        }
    }
}

/// The short label of a severity.
pub fn sev_label(s: &Severity) -> (r: &'static str)
    ensures
        *s == Severity::Error ==> r@ == "ERR"@,
        *s == Severity::Warning ==> r@ == "WARN"@,
        *s == Severity::Info ==> r@ == "INFO"@,
{
    match s {
        Severity::Error => "ERR",
        Severity::Warning => "WARN",
        Severity::Info => "INFO",
    }
}

/// One finding of the code-check tool.
pub struct Issue {
    pub line: usize,
    pub severity: Severity,
    pub kind: IssueKind,
    pub message: Vec<char>,
}

/// The mathematical value of an `Issue`.
pub struct IssueView {
    pub line: nat,
    pub severity: Severity,
    pub kind: IssueKind,
    pub message: Seq<char>,
}

impl View for Issue {
    type V = IssueView;

    open spec fn view(&self) -> IssueView {
        IssueView {
            line: self.line as nat,
            severity: self.severity,
            kind: self.kind,
            message: self.message@,
        }
    }
}

/// The views of a list of issues.
pub open spec fn issues_view(v: Seq<Issue>) -> Seq<IssueView> {
    v.map_values(|i: Issue| i@)
}

/// An issue value.
pub open spec fn iv(line: nat, severity: Severity, kind: IssueKind, message: Seq<char>) -> IssueView {
    IssueView { line, severity, kind, message }
}

/// Records an issue.
pub fn emit(issues: &mut Vec<Issue>, l: usize, s: Severity, k: IssueKind, m: Vec<char>)
    ensures
        issues_view(final(issues)@) == issues_view(old(issues)@).push(iv(l as nat, s, k, m@)),
{
    let ghost before = issues_view(issues@);
    issues.push(Issue { line: l, severity: s, kind: k, message: m });
    assert(issues_view(issues@) =~= before.push(iv(l as nat, s, k, m@)));
}

// ---------------------------------------------------------------- characters

/// `c` is an ASCII digit.
pub open spec fn is_digit(c: char) -> bool {
    '0' <= c <= '9'
}

/// `c` is an ASCII letter.
pub open spec fn is_ascii_alpha(c: char) -> bool {
    ('a' <= c <= 'z') || ('A' <= c <= 'Z')
}

/// Whether `c` is an ASCII digit.
pub fn char_is_digit(c: char) -> (b: bool)
    ensures
        b == is_digit(c),
{
    '0' <= c && c <= '9'
}

/// Whether `c` is an ASCII letter.
pub fn char_is_ascii_alpha(c: char) -> (b: bool)
    ensures
        b == is_ascii_alpha(c),
{
    ('a' <= c && c <= 'z') || ('A' <= c && c <= 'Z')
}

/// What `char::is_alphanumeric` answers for `c` (Unicode Alphabetic or Numeric).
pub uninterp spec fn char_alphanumeric(c: char) -> bool;

/// Calls `char::is_alphanumeric`. Its answer for a character is fixed by
/// the Unicode tables; for ASCII the documentation's classes are stated:
/// letters and digits are alphanumeric, nothing else is.
#[verifier::external_body]
fn alphanumeric(c: char) -> (b: bool)
    ensures
        b == char_alphanumeric(c),
        (c as u32) < 128 ==> (b <==> (is_digit(c) || is_ascii_alpha(c))),
{
    c.is_alphanumeric()
}

/// What `str::to_lowercase` gives for the string `s`.
pub uninterp spec fn str_lowercase(s: Seq<char>) -> Seq<char>;

/// The ASCII lowercase of `c`: `A`..`Z` become `a`..`z`, nothing else changes.
pub open spec fn ascii_lower(c: char) -> char {
    if 'A' <= c && c <= 'Z' {
        ((c as u32) + 32) as char
    } else {
        c
    }
}

/// Calls `str::to_lowercase` on the string of the characters `s`, and
/// gives the characters of the result. Its answer is fixed by the Unicode
/// tables; for an all-ASCII string it is stated: each character in turn,
/// with `A`..`Z` lowered to `a`..`z`.
#[verifier::external_body]
fn lowercase(s: &[char]) -> (r: Vec<char>)
    ensures
        r@ == str_lowercase(s@),
        (forall|i: int| 0 <= i < s@.len() ==> (#[trigger] s@[i] as u32) < 128) ==> r@
            == s@.map_values(|c: char| ascii_lower(c)),
{
    let st: String = s.iter().collect();
    st.to_lowercase().chars().collect()
}

// ---------------------------------------------------------------- line tests

/// The UTF-8 width of `c`.
pub open spec fn utf8_width(c: char) -> nat {
    if (c as u32) < 0x80 {
        1
    } else if (c as u32) < 0x800 {
        2
    } else if (c as u32) < 0x1_0000 {
        3
    } else {
        4
    }
}

/// The UTF-8 length of `s` (what `str::len` gives).
pub open spec fn utf8_len(s: Seq<char>) -> nat
    decreases s.len(),
{
    if s.len() == 0 {
        0
    } else {
        utf8_len(s.drop_last()) + utf8_width(s.last())
    }
}

proof fn lemma_utf8_len_bound(s: Seq<char>)
    ensures
        utf8_len(s) <= 4 * s.len(),
    decreases s.len(),
{
    if s.len() > 0 {
        lemma_utf8_len_bound(s.drop_last());
    }
}

/// The UTF-8 length of `s`.
pub fn utf8_length(s: &[char]) -> (n: usize)
    requires
        4 * s@.len() <= usize::MAX,
    ensures
        n == utf8_len(s@),
{
    let mut n: usize = 0;
    let mut i: usize = 0;
    while i < s.len()
        invariant
            4 * s@.len() <= usize::MAX,
            i <= s@.len(),
            n == utf8_len(s@.subrange(0, i as int)),
        decreases s@.len() - i,
    {
        proof {
            lemma_utf8_len_bound(s@.subrange(0, i as int));
            assert(s@.subrange(0, i + 1).drop_last() =~= s@.subrange(0, i as int));
        }
        let u = s[i] as u32;
        let w: usize = if u < 0x80 {
            1
        } else if u < 0x800 {
            2
        } else if u < 0x1_0000 {
            3
        } else {
            4
        };
        n = n + w;
        i += 1;
    }
    assert(s@.subrange(0, i as int) =~= s@);
    n
}

/// `t` begins like a comment: `//`, `/*` or `*`.
pub open spec fn comment_start(t: Seq<char>) -> bool {
    starts_with(t, seq!['/', '/']) || starts_with(t, seq!['/', '*']) || starts_with(t, seq!['*'])
}

/// The lowered line mentions a to-do marker.
pub open spec fn mentions_todo_spec(lower: Seq<char>) -> bool {
    contains(lower, seq!['t', 'o', 'd', 'o']) || contains(lower, seq!['f', 'i', 'x', 'm', 'e'])
}

/// Whether the lowered line mentions `todo` or `fixme`.
pub fn mentions_todo(lower: &[char]) -> (b: bool)
    ensures
        b == mentions_todo_spec(lower@),
{
    let todo: [char; 4] = ['t', 'o', 'd', 'o'];
    let fixme: [char; 5] = ['f', 'i', 'x', 'm', 'e'];
    assert(todo@ =~= seq!['t', 'o', 'd', 'o']);
    assert(fixme@ =~= seq!['f', 'i', 'x', 'm', 'e']);
    has_substring(lower, todo.as_slice()) || has_substring(lower, fixme.as_slice())
}

/// Whether `t` begins like a comment.
pub fn is_comment_start(t: &[char]) -> (b: bool)
    ensures
        b == comment_start(t@),
{
    let a: [char; 2] = ['/', '/'];
    let b: [char; 2] = ['/', '*'];
    let c: [char; 1] = ['*'];
    assert(a@ =~= seq!['/', '/']);
    assert(b@ =~= seq!['/', '*']);
    assert(c@ =~= seq!['*']);
    has_prefix(t, a.as_slice()) || has_prefix(t, b.as_slice()) || has_prefix(t, c.as_slice())
}


/// Whether `t` starts with the string `p`.
pub fn starts_with_str(t: &[char], p: &str) -> (b: bool)
    ensures
        b == starts_with(t@, p@),
{
    let pc = chars_of(p);
    has_prefix(t, pc.as_slice())
}

/// Whether the string `p` occurs in `t`.
pub fn contains_str(t: &[char], p: &str) -> (b: bool)
    ensures
        b == contains(t@, p@),
{
    let pc = chars_of(p);
    has_substring(t, pc.as_slice())
}

/// A trimmed line that is a comment or an attribute.
pub open spec fn comment_or_attr(line: Seq<char>) -> bool {
    let t = trim(line);
    starts_with(t, "//"@) || starts_with(t, "/*"@) || starts_with(t, "#["@) || starts_with(
        t,
        "#!"@,
    ) || starts_with(t, "*"@)
}

/// Whether a line is a comment or an attribute.
pub fn is_comment_or_attr(line: &[char]) -> (b: bool)
    ensures
        b == comment_or_attr(line@),
{
    let t = trim_chars(line);
    starts_with_str(&t, "//") || starts_with_str(&t, "/*") || starts_with_str(&t, "#[")
        || starts_with_str(&t, "#!") || starts_with_str(&t, "*")
}

/// A line that is a `use` declaration.
pub open spec fn use_line(line: Seq<char>) -> bool {
    starts_with(trim(line), "use "@)
}

/// Whether a line is a `use` declaration.
pub fn is_use_line(line: &[char]) -> (b: bool)
    ensures
        b == use_line(line@),
{
    let t = trim_chars(line);
    starts_with_str(&t, "use ")
}

/// A line that declares a constant or a type alias.
pub open spec fn pub_const_or_type(line: Seq<char>) -> bool {
    let t = trim(line);
    starts_with(t, "pub const "@) || starts_with(t, "const "@) || starts_with(t, "pub type "@)
        || starts_with(t, "type "@)
}

/// Whether a line declares a constant or a type alias.
pub fn is_pub_const_or_type(line: &[char]) -> (b: bool)
    ensures
        b == pub_const_or_type(line@),
{
    let t = trim_chars(line);
    starts_with_str(&t, "pub const ") || starts_with_str(&t, "const ") || starts_with_str(
        &t,
        "pub type ",
    ) || starts_with_str(&t, "type ")
}

/// A trimmed line that starts a public item that should be documented.
pub open spec fn pub_item_start(t: Seq<char>) -> bool {
    starts_with(t, "pub fn"@) || starts_with(t, "pub struct"@) || starts_with(t, "pub enum"@)
        || starts_with(t, "pub trait"@) || starts_with(t, "pub type"@) || starts_with(
        t,
        "pub const"@,
    ) || starts_with(t, "pub static"@) || starts_with(t, "pub unsafe"@)
}

/// Whether a trimmed line starts a public item.
pub fn is_pub_item_start(t: &[char]) -> (b: bool)
    ensures
        b == pub_item_start(t@),
{
    starts_with_str(t, "pub fn") || starts_with_str(t, "pub struct") || starts_with_str(
        t,
        "pub enum",
    ) || starts_with_str(t, "pub trait") || starts_with_str(t, "pub type") || starts_with_str(
        t,
        "pub const",
    ) || starts_with_str(t, "pub static") || starts_with_str(t, "pub unsafe")
}

/// A trimmed line that the magic-number check does not look at.
pub open spec fn magic_exempt(t: Seq<char>) -> bool {
    comment_or_attr(t) || use_line(t) || pub_const_or_type(t) || starts_with(t, "pub struct "@)
        || starts_with(t, "pub enum "@) || starts_with(t, "struct "@) || starts_with(t, "enum "@)
        || starts_with(t, "pub fn "@) || starts_with(t, "fn "@) || starts_with(
        t,
        "pub unsafe fn "@,
    ) || starts_with(t, "unsafe fn "@) || starts_with(t, "impl "@) || starts_with(t, "pub mod "@)
        || starts_with(t, "mod "@) || starts_with(t, "static "@) || starts_with(t, "pub static "@)
        || starts_with(t, "let "@) || starts_with(t, "pub use "@) || starts_with(t, "extern "@)
        || starts_with(t, "use "@)
}

/// Whether the magic-number check skips a trimmed line.
pub fn is_magic_exempt(t: &[char]) -> (b: bool)
    ensures
        b == magic_exempt(t@),
{
    is_comment_or_attr(t) || is_use_line(t) || is_pub_const_or_type(t) || starts_with_str(
        t,
        "pub struct ",
    ) || starts_with_str(t, "pub enum ") || starts_with_str(t, "struct ") || starts_with_str(
        t,
        "enum ",
    ) || starts_with_str(t, "pub fn ") || starts_with_str(t, "fn ") || starts_with_str(
        t,
        "pub unsafe fn ",
    ) || starts_with_str(t, "unsafe fn ") || starts_with_str(t, "impl ") || starts_with_str(
        t,
        "pub mod ",
    ) || starts_with_str(t, "mod ") || starts_with_str(t, "static ") || starts_with_str(
        t,
        "pub static ",
    ) || starts_with_str(t, "let ") || starts_with_str(t, "pub use ") || starts_with_str(
        t,
        "extern ",
    ) || starts_with_str(t, "use ")
}

/// The part of `t` before its first `(`.
pub open spec fn before_paren(t: Seq<char>) -> Seq<char>
    decreases t.len(),
{
    if t.len() == 0 {
        t
    } else if t[0] == '(' {
        Seq::empty()
    } else {
        seq![t[0]] + before_paren(t.drop_first())
    }
}

/// The part of `t` before its first `(`.
pub fn text_before_paren(t: &[char]) -> (r: Vec<char>)
    ensures
        r@ == before_paren(t@),
{
    let mut i: usize = 0;
    assert(t@.subrange(0, t@.len() as int) =~= t@);
    assert(t@.subrange(0, 0) + before_paren(t@) =~= before_paren(t@));
    while i < t.len() && t[i] != '('
        invariant
            i <= t@.len(),
            forall|j: int| 0 <= j < i ==> t@[j] != '(',
            before_paren(t@) == t@.subrange(0, i as int) + before_paren(
                t@.subrange(i as int, t@.len() as int),
            ),
        decreases t@.len() - i,
    {
        let ghost rest = t@.subrange(i as int, t@.len() as int);
        assert(rest.drop_first() =~= t@.subrange(i + 1, t@.len() as int));
        assert(t@.subrange(0, i + 1) =~= t@.subrange(0, i as int) + seq![t@[i as int]]);
        i += 1;
    }
    proof {
        let rest = t@.subrange(i as int, t@.len() as int);
        if i < t@.len() {
            assert(rest[0] == '(');
        }
        assert(t@.subrange(0, i as int) + before_paren(rest) =~= t@.subrange(0, i as int));
    }
    sub_chars(t, 0, i)
}


// ---------------------------------------------------------------- magic numbers

/// Index just past the identifier-like run (alphanumeric or `_`) at `j`.
pub open spec fn token_end(cs: Seq<char>, j: int) -> int
    decreases cs.len() - j,
{
    if j < 0 || j >= cs.len() {
        j
    } else if char_alphanumeric(cs[j]) || cs[j] == '_' {
        token_end(cs, j + 1)
    } else {
        j
    }
}

/// `s` without its trailing ASCII letters and underscores.
pub open spec fn trim_end_alpha_us(s: Seq<char>) -> Seq<char>
    decreases s.len(),
{
    if s.len() > 0 && (is_ascii_alpha(s.last()) || s.last() == '_') {
        trim_end_alpha_us(s.drop_last())
    } else {
        s
    }
}

/// `s` without its underscores.
pub open spec fn remove_underscores(s: Seq<char>) -> Seq<char>
    decreases s.len(),
{
    if s.len() == 0 {
        s
    } else if s.last() == '_' {
        remove_underscores(s.drop_last())
    } else {
        remove_underscores(s.drop_last()).push(s.last())
    }
}

/// Every character of `s` is an ASCII digit.
pub open spec fn all_digits(s: Seq<char>) -> bool {
    forall|i: int| 0 <= i < s.len() ==> is_digit(#[trigger] s[i])
}

/// The number the decimal digits `s` write.
pub open spec fn dec_value(s: Seq<char>) -> nat
    decreases s.len(),
{
    if s.len() == 0 {
        0
    } else {
        (dec_value(s.drop_last()) * 10 + (s.last() as u32 - '0' as u32)) as nat
    }
}

/// A numeric token is a magic number: without its trailing letters and
/// underscores, and without underscores, it parses as an `i64` above 1.
pub open spec fn magic_token(token: Seq<char>) -> bool {
    let d = remove_underscores(trim_end_alpha_us(token));
    d.len() > 0 && all_digits(d) && dec_value(d) <= i64::MAX && dec_value(d) > 1
}

/// The magic-number scan of the characters `cs` from position `j`: whether
/// it finds a literal of at least two digits, not part of a name or a
/// path, not hexadecimal, binary or octal, whose value is above 1.
pub open spec fn magic_scan(cs: Seq<char>, j: int) -> bool
    decreases cs.len() - j,
{
    if j < 0 || j >= cs.len() {
        false
    } else if is_digit(cs[j]) && j + 1 < cs.len() && is_digit(cs[j + 1]) {
        if j > 0 && (char_alphanumeric(cs[j - 1]) || cs[j - 1] == '_' || cs[j - 1] == ':' || cs[j
            - 1] == '.') {
            magic_scan(cs, j + 1)
        } else {
            let e = token_end(cs, j);
            if e <= j || e > cs.len() {
                false
            } else {
                let token = cs.subrange(j, e);
                if starts_with(token, "0x"@) || starts_with(token, "0b"@) || starts_with(
                    token,
                    "0o"@,
                ) {
                    magic_scan(cs, e)
                } else if magic_token(token) {
                    true
                } else {
                    magic_scan(cs, e)
                }
            }
        }
    } else {
        magic_scan(cs, j + 1)
    }
}

proof fn lemma_token_end_ge(cs: Seq<char>, j: int)
    requires
        0 <= j,
    ensures
        token_end(cs, j) >= j,
        token_end(cs, j) <= cs.len() || token_end(cs, j) == j,
    decreases cs.len() - j,
{
    if j < cs.len() && (char_alphanumeric(cs[j]) || cs[j] == '_') {
        lemma_token_end_ge(cs, j + 1);
    }
}

/// Whether a numeric token is a magic number.
pub fn is_magic_token(token: &[char]) -> (b: bool)
    ensures
        b == magic_token(token@),
{
    let mut end = token.len();
    assert(token@.subrange(0, end as int) =~= token@);
    while end > 0 && (char_is_ascii_alpha(token[end - 1]) || token[end - 1] == '_')
        invariant
            end <= token@.len(),
            trim_end_alpha_us(token@) == trim_end_alpha_us(token@.subrange(0, end as int)),
        decreases end,
    {
        assert(token@.subrange(0, end as int).drop_last() =~= token@.subrange(0, end - 1));
        end -= 1;
    }
    let ghost cleaned = token@.subrange(0, end as int);
    assert(trim_end_alpha_us(cleaned) == cleaned);
    let mut digits: Vec<char> = Vec::new();
    let mut i: usize = 0;
    assert(cleaned.subrange(0, 0) =~= Seq::<char>::empty());
    while i < end
        invariant
            i <= end <= token@.len(),
            cleaned == token@.subrange(0, end as int),
            cleaned == trim_end_alpha_us(token@),
            digits@ == remove_underscores(cleaned.subrange(0, i as int)),
        decreases end - i,
    {
        assert(cleaned.subrange(0, i + 1).drop_last() =~= cleaned.subrange(0, i as int));
        if token[i] != '_' {
            digits.push(token[i]);
        }
        i += 1;
    }
    assert(cleaned.subrange(0, end as int) =~= cleaned);
    let ghost d = digits@;
    if digits.len() == 0 {
        return false;
    }
    let mut v: u64 = 0;
    let mut k: usize = 0;
    assert(d.subrange(0, 0) =~= Seq::<char>::empty());
    while k < digits.len()
        invariant
            d == digits@,
            d == remove_underscores(trim_end_alpha_us(token@)),
            k <= d.len(),
            v == dec_value(d.subrange(0, k as int)),
            v <= i64::MAX,
            all_digits(d.subrange(0, k as int)),
        decreases d.len() - k,
    {
        let c = digits[k];
        let ghost p = d.subrange(0, k as int);
        let ghost q = d.subrange(0, k + 1);
        assert(q.drop_last() =~= p);
        if !char_is_digit(c) {
            assert(!all_digits(d)) by {
                assert(!is_digit(d[k as int]));
            }
            return false;
        }
        assert(all_digits(q)) by {
            assert forall|j: int| 0 <= j < q.len() implies is_digit(#[trigger] q[j]) by {
                if j < p.len() {
                    assert(q[j] == p[j]);
                }
            }
        }
        let dv = (c as u32 - '0' as u32) as u64;
        assert(dec_value(q) == v * 10 + dv);
        if v > (0x7FFF_FFFF_FFFF_FFFFu64 - dv) / 10 {
            proof {
                assert(dec_value(q) > i64::MAX) by (nonlinear_arith)
                    requires
                        v > (0x7FFF_FFFF_FFFF_FFFFu64 - dv) / 10,
                        dec_value(q) == v * 10 + dv,
                        dv <= 9,
                ;
                lemma_dec_value_prefix(d, k + 1);
            }
            return false;
        }
        v = v * 10 + dv;
        k += 1;
    }
    assert(d.subrange(0, d.len() as int) =~= d);
    v > 1
}

proof fn lemma_dec_value_prefix(s: Seq<char>, k: int)
    requires
        0 <= k <= s.len(),
    ensures
        all_digits(s) ==> dec_value(s.subrange(0, k)) <= dec_value(s),
    decreases s.len() - k,
{
    if k < s.len() {
        lemma_dec_value_prefix(s, k + 1);
        let a = s.subrange(0, k);
        let b = s.subrange(0, k + 1);
        assert(b.drop_last() =~= a);
        assert(b.last() == s[k]);
        if all_digits(s) {
            assert(is_digit(s[k]));
            assert(dec_value(b) == dec_value(a) * 10 + (b.last() as u32 - '0' as u32));
            assert(dec_value(b) >= dec_value(a)) by (nonlinear_arith)
                requires
                    dec_value(b) == dec_value(a) * 10 + (b.last() as u32 - '0' as u32),
                    (b.last() as u32 - '0' as u32) >= 0,
            ;
        }
    } else {
        assert(s.subrange(0, k) =~= s);
    }
}

/// Whether the trimmed line `t` holds a magic number.
pub fn has_magic_number(t: &[char]) -> (b: bool)
    ensures
        b == magic_scan(t@, 0),
{
    let n = t.len();
    let mut j: usize = 0;
    while j < n
        invariant
            n == t@.len(),
            j <= n,
            magic_scan(t@, 0) == magic_scan(t@, j as int),
        decreases n - j,
    {
        if char_is_digit(t[j]) && j + 1 < n && char_is_digit(t[j + 1]) {
            if j > 0 && (alphanumeric(t[j - 1]) || t[j - 1] == '_' || t[j - 1] == ':' || t[j - 1]
                == '.') {
                j += 1;
                continue;
            }
            let start = j;
            proof {
                lemma_token_end_ge(t@, start as int);
            }
            while j < n && (alphanumeric(t[j]) || t[j] == '_')
                invariant
                    n == t@.len(),
                    start <= j <= n,
                    start + 1 < n,
                    is_digit(t@[start as int]),
                    is_digit(t@[start + 1]),
                    token_end(t@, start as int) == token_end(t@, j as int),
                decreases n - j,
            {
                j += 1;
            }
            assert(token_end(t@, j as int) == j);
            assert(j >= start + 2);
            let token = sub_chars(t, start, j);
            if starts_with_str(&token, "0x") || starts_with_str(&token, "0b") || starts_with_str(
                &token,
                "0o",
            ) {
                continue;
            }
            if is_magic_token(&token) {
                return true;
            }
        } else {
            j += 1;
        }
    }
    false
}


// ---------------------------------------------------------------- line checks

/// The checks that look at one line at a time.
#[derive(Debug, Clone, Copy, PartialEq, Eq, Structural)]
pub enum LineCheck {
    TrailingWhitespace,
    LineLength,
    TodoFixme,
    UnsafeBlock,
    SilentUnwrap,
    MissingDoc,
    MagicNumber,
}

/// The issue a line check reports for line `i` (0-based) of `lines`.
pub open spec fn check_line(which: LineCheck, lines: Seq<Seq<char>>, i: int) -> Option<IssueView> {
    let l = lines[i];
    let n = (i + 1) as nat;
    let t = trim(l);
    match which {
        LineCheck::TrailingWhitespace => if l.len() > 0 && is_ws(l.last()) {
            Some(iv(n, Severity::Warning, IssueKind::TrailingWhitespace, Seq::empty()))
        } else {
            None
        },
        LineCheck::LineLength => if utf8_len(l) > MAX_LINE_LENGTH {
            Some(
                iv(n, Severity::Warning, IssueKind::LineTooLong, decimal(utf8_len(l)) + " chars"@),
            )
        } else {
            None
        },
        LineCheck::TodoFixme => if comment_start(t) && mentions_todo_spec(str_lowercase(t)) {
            Some(iv(n, Severity::Info, IssueKind::TodoFixme, t))
        } else {
            None
        },
        LineCheck::UnsafeBlock => if t == "unsafe {"@ || starts_with(t, "unsafe {"@) {
            Some(iv(n, Severity::Info, IssueKind::Unsafe, Seq::empty()))
        } else {
            None
        },
        LineCheck::SilentUnwrap => if contains(t, ".unwrap()"@) && !starts_with(t, "//"@) {
            Some(iv(n, Severity::Warning, IssueKind::Unwrap, t))
        } else {
            None
        },
        LineCheck::MissingDoc => if pub_item_start(t) && !(i > 0 && (starts_with(
            trim(lines[i - 1]),
            "///"@,
        ) || starts_with(trim(lines[i - 1]), "//!"@))) {
            Some(iv(n, Severity::Info, IssueKind::MissingDoc, trim(before_paren(t))))
        } else {
            None
        },
        LineCheck::MagicNumber => if !magic_exempt(t) && magic_scan(t, 0) {
            Some(
                iv(
                    n,
                    Severity::Info,
                    IssueKind::MagicNumber,
                    t.subrange(0, if t.len() < 60 {
                        t.len() as int
                    } else {
                        60
                    }),
                ),
            )
        } else {
            None
        },
    }
}

/// The issues a line check reports for the first `k` lines, in order.
pub open spec fn line_issues(which: LineCheck, lines: Seq<Seq<char>>, k: nat) -> Seq<IssueView>
    decreases k,
{
    if k == 0 {
        Seq::empty()
    } else {
        let prev = line_issues(which, lines, (k - 1) as nat);
        match check_line(which, lines, k - 1) {
            Some(v) => prev.push(v),
            None => prev,
        }
    }
}

/// The issues a line check reports for the source text `c`.
pub open spec fn check_issues(which: LineCheck, c: Seq<char>) -> Seq<IssueView> {
    line_issues(which, str_lines(c), str_lines(c).len())
}

/// The issue a line check reports for line `i` of `lines`, if any.
pub fn check_one_line(which: LineCheck, lines: &Vec<Vec<char>>, i: usize) -> (r: Option<
    (Severity, IssueKind, Vec<char>),
>)
    requires
        i < lines@.len(),
        4 * lines@[i as int]@.len() <= usize::MAX,
    ensures
        match check_line(which, lines_view(lines@), i as int) {
            Some(v) => r matches Some(x) && v == iv((i + 1) as nat, x.0, x.1, x.2@),
            None => r is None,
        },
{
    let ghost lv = lines_view(lines@);
    let l = &lines[i];
    assert(l@ == lv[i as int]);
    let t = trim_chars(l.as_slice());
    match which {
        LineCheck::TrailingWhitespace => {
            if l.len() > 0 && char_is_ws(l[l.len() - 1]) {
                Some((Severity::Warning, IssueKind::TrailingWhitespace, Vec::new()))
            } else {
                None
            }
        },
        LineCheck::LineLength => {
            let len = utf8_length(l.as_slice());
            if len > MAX_LINE_LENGTH {
                let mut m: Vec<char> = Vec::new();
                push_decimal(&mut m, len as u64);
                let tail = chars_of(" chars");
                let ghost before = m@;
                let mut k: usize = 0;
                while k < tail.len()
                    invariant
                        k <= tail@.len(),
                        m@ == before + tail@.subrange(0, k as int),
                    decreases tail@.len() - k,
                {
                    m.push(tail[k]);
                    k += 1;
                    assert(m@ =~= before + tail@.subrange(0, k as int));
                }
                assert(tail@.subrange(0, tail@.len() as int) =~= tail@);
                Some((Severity::Warning, IssueKind::LineTooLong, m))
            } else {
                None
            }
        },
        LineCheck::TodoFixme => {
            if is_comment_start(&t) {
                let lower = lowercase(&t);
                if mentions_todo(&lower) {
                    return Some((Severity::Info, IssueKind::TodoFixme, t));
                }
            }
            None
        },
        LineCheck::UnsafeBlock => {
            let u = chars_of("unsafe {");
            if chars_eq(&t, &u) || starts_with_str(&t, "unsafe {") {
                Some((Severity::Info, IssueKind::Unsafe, Vec::new()))
            } else {
                None
            }
        },
        LineCheck::SilentUnwrap => {
            if contains_str(&t, ".unwrap()") && !starts_with_str(&t, "//") {
                Some((Severity::Warning, IssueKind::Unwrap, t))
            } else {
                None
            }
        },
        LineCheck::MissingDoc => {
            if is_pub_item_start(&t) {
                let has_doc = if i > 0 {
                    let p = trim_chars(lines[i - 1].as_slice());
                    assert(lines[i - 1]@ == lv[i - 1]);
                    starts_with_str(&p, "///") || starts_with_str(&p, "//!")
                } else {
                    false
                };
                if !has_doc {
                    let before = text_before_paren(&t);
                    let name = trim_chars(&before);
                    return Some((Severity::Info, IssueKind::MissingDoc, name));
                }
            }
            None
        },
        LineCheck::MagicNumber => {
            if !is_magic_exempt(&t) && has_magic_number(&t) {
                let n = if t.len() < 60 {
                    t.len()
                } else {
                    60
                };
                Some((Severity::Info, IssueKind::MagicNumber, sub_chars(&t, 0, n)))
            } else {
                None
            }
        },
    }
}

/// Whether two character strings are equal.
pub fn chars_eq(a: &[char], b: &[char]) -> (r: bool)
    ensures
        r == (a@ == b@),
{
    if a.len() != b.len() {
        return false;
    }
    let r = has_prefix(a, b);
    assert(a@.subrange(0, b@.len() as int) =~= a@);
    r
}

/// The UTF-8 lengths of the lines are bounded by their character counts.
pub open spec fn lines_fit(lines: Seq<Seq<char>>) -> bool {
    forall|i: int| 0 <= i < lines.len() ==> 4 * (#[trigger] lines[i]).len() <= usize::MAX
}

/// Runs a line check over `lines`, appending its issues.
pub fn run_line_check(which: LineCheck, lines: &Vec<Vec<char>>, issues: &mut Vec<Issue>)
    requires
        lines_fit(lines_view(lines@)),
    ensures
        issues_view(final(issues)@) == issues_view(old(issues)@) + line_issues(
            which,
            lines_view(lines@),
            lines@.len(),
        ),
{
    let ghost lv = lines_view(lines@);
    let mut i: usize = 0;
    assert(issues_view(issues@) =~= issues_view(old(issues)@) + line_issues(which, lv, 0));
    while i < lines.len()
        invariant
            lv == lines_view(lines@),
            lines_fit(lv),
            i <= lines@.len(),
            issues_view(issues@) == issues_view(old(issues)@) + line_issues(which, lv, i as nat),
        decreases lines@.len() - i,
    {
        assert(lv[i as int] == lines@[i as int]@);
        assert(4 * lv[i as int].len() <= usize::MAX);
        match check_one_line(which, lines, i) {
            Some((s, k, m)) => {
                emit(issues, i + 1, s, k, m);
            },
            None => {},
        }
        assert(issues_view(issues@) =~= issues_view(old(issues)@) + line_issues(
            which,
            lv,
            (i + 1) as nat,
        ));
        i += 1;
    }
}


// ---------------------------------------------------------------- nesting

/// `i32::saturating_sub(d, 1)`.
pub open spec fn sat_dec(d: int) -> int {
    if d <= i32::MIN {
        d
    } else {
        d - 1
    }
}

/// `d` minus one, saturating at `i32::MIN` (`i32::saturating_sub(d, 1)`).
pub fn saturating_dec(d: i32) -> (r: i32)
    ensures
        r == sat_dec(d as int),
{
    if d == i32::MIN {
        d
    } else {
        d - 1
    }
}

/// The brace depth after walking the characters of `t` from depth `d`.
pub open spec fn brace_walk(t: Seq<char>, d: int) -> int
    decreases t.len(),
{
    if t.len() == 0 {
        d
    } else {
        let d1 = brace_walk(t.drop_last(), d);
        if t.last() == '{' {
            d1 + 1
        } else if t.last() == '}' {
            sat_dec(d1)
        } else {
            d1
        }
    }
}

proof fn lemma_brace_walk_bound(t: Seq<char>, d: int)
    ensures
        brace_walk(t, d) <= d + t.len(),
        d >= i32::MIN ==> brace_walk(t, d) >= i32::MIN,
    decreases t.len(),
{
    if t.len() > 0 {
        lemma_brace_walk_bound(t.drop_last(), d);
    }
}

/// The nesting check's state after the first `k` lines: the current depth,
/// the deepest depth seen, and the line where it was first reached.
pub open spec fn nesting(lines: Seq<Seq<char>>, k: nat) -> (int, int, nat)
    decreases k,
{
    if k == 0 {
        (0, 0, 0)
    } else {
        let (d, m, l) = nesting(lines, (k - 1) as nat);
        let t = trim(lines[k - 1]);
        let d0 = if starts_with(t, "}"@) {
            sat_dec(d)
        } else {
            d
        };
        let d2 = brace_walk(t, d0);
        if d2 > m {
            (d2, d2, k)
        } else {
            (d2, m, l)
        }
    }
}

/// What the nesting check reports for the source text `c`: one warning
/// at the first line of the deepest nesting, when deeper than allowed.
pub open spec fn nesting_issues(c: Seq<char>) -> Seq<IssueView> {
    let ls = str_lines(c);
    let (d, m, l) = nesting(ls, ls.len());
    if m > MAX_NESTING_DEPTH {
        seq![iv(l, Severity::Warning, IssueKind::DeepNesting, "depth "@ + decimal(m as nat))]
    } else {
        Seq::empty()
    }
}

/// Appends the characters of `s` to `out`.
pub fn push_str(out: &mut Vec<char>, s: &str)
    ensures
        final(out)@ == old(out)@ + s@,
{
    let t = chars_of(s);
    push_chars(out, &t);
}

/// Appends the characters `t` to `out`.
pub fn push_chars(out: &mut Vec<char>, t: &[char])
    ensures
        final(out)@ == old(out)@ + t@,
{
    let ghost before = out@;
    let mut k: usize = 0;
    while k < t.len()
        invariant
            k <= t@.len(),
            out@ == before + t@.subrange(0, k as int),
        decreases t@.len() - k,
    {
        out.push(t[k]);
        k += 1;
        assert(out@ =~= before + t@.subrange(0, k as int));
    }
    assert(t@.subrange(0, t@.len() as int) =~= t@);
}

/// Reports brace nesting deeper than `MAX_NESTING_DEPTH`.
pub fn deep_nesting(c: &[char], issues: &mut Vec<Issue>)
    requires
        c@.len() < i32::MAX,
    ensures
        issues_view(final(issues)@) == issues_view(old(issues)@) + nesting_issues(c@),
{
    let lines = split_lines(c);
    let ghost ls = lines_view(lines@);
    proof {
        lemma_lines_total(c@);
    }
    let mut depth: i32 = 0;
    let mut max_depth: i32 = 0;
    let mut max_line: usize = 0;
    let mut i: usize = 0;
    while i < lines.len()
        invariant
            ls == lines_view(lines@),
            ls == str_lines(c@),
            total_len(ls) <= c@.len() < i32::MAX,
            i <= lines@.len(),
            (depth as int, max_depth as int, max_line as nat) == nesting(ls, i as nat),
            depth <= total_len(ls.subrange(0, i as int)),
            max_depth <= total_len(ls.subrange(0, i as int)),
            max_line <= i,
        decreases lines@.len() - i,
    {
        proof {
            lemma_total_len_prefix(ls, i as int);
        }
        let line = &lines[i];
        assert(line@ == ls[i as int]);
        let t = trim_chars(line.as_slice());
        proof {
            lemma_trim_len(line@);
        }
        let ghost d_before = depth as int;
        if starts_with_str(&t, "}") {
            depth = saturating_dec(depth);
        }
        let ghost d0 = depth as int;
        let mut j: usize = 0;
        assert(t@.subrange(0, 0) =~= Seq::<char>::empty());
        while j < t.len()
            invariant
                j <= t@.len(),
                t@.len() <= ls[i as int].len(),
                depth as int == brace_walk(t@.subrange(0, j as int), d0),
                d0 <= total_len(ls.subrange(0, i as int)),
                depth <= d0 + j,
                total_len(ls.subrange(0, i as int)) + ls[i as int].len() <= total_len(ls),
                total_len(ls) < i32::MAX,
            decreases t@.len() - j,
        {
            assert(t@.subrange(0, j + 1).drop_last() =~= t@.subrange(0, j as int));
            let ch = t[j];
            if ch == '{' {
                depth = depth + 1;
            } else if ch == '}' {
                depth = saturating_dec(depth);
            }
            j += 1;
        }
        assert(t@.subrange(0, j as int) =~= t@);
        if depth > max_depth {
            max_depth = depth;
            max_line = i + 1;
        }
        i += 1;
    }
    if max_depth > MAX_NESTING_DEPTH as i32 {
        let mut m: Vec<char> = Vec::new();
        push_str(&mut m, "depth ");
        push_decimal(&mut m, max_depth as u64);
        let ghost before = issues_view(issues@);
        emit(issues, max_line, Severity::Warning, IssueKind::DeepNesting, m);
        assert(issues_view(issues@) =~= before + nesting_issues(c@));
    } else {
        assert(issues_view(issues@) =~= issues_view(old(issues)@) + nesting_issues(c@));
    }
}


// ---------------------------------------------------------------- long functions

/// A trimmed line that starts a function definition.
pub open spec fn fn_head(t: Seq<char>) -> bool {
    starts_with(t, "fn "@) || starts_with(t, "pub fn "@) || starts_with(t, "unsafe fn "@)
        || starts_with(t, "pub unsafe fn "@)
}

/// Whether a trimmed line starts a function definition.
pub fn is_fn_head(t: &[char]) -> (b: bool)
    ensures
        b == fn_head(t@),
{
    starts_with_str(t, "fn ") || starts_with_str(t, "pub fn ") || starts_with_str(t, "unsafe fn ")
        || starts_with_str(t, "pub unsafe fn ")
}

/// A currently open function: its first line and its name.
pub type OpenFn = Option<(nat, Seq<char>)>;

/// The long-function check's state after the first `k` lines: its
/// issues, the function it is inside of, and the brace depth.
pub open spec fn long_fn_state(lines: Seq<Seq<char>>, k: nat) -> (Seq<IssueView>, OpenFn, int)
    decreases k,
{
    if k == 0 {
        (Seq::empty(), None, 0)
    } else {
        let (iss, open, d) = long_fn_state(lines, (k - 1) as nat);
        let i = k - 1;
        let t = trim(lines[i]);
        match open {
            Some((start, name)) => {
                let d2 = d + count_char(t, '{') - count_char(t, '}');
                if d2 == 0 {
                    let count = i + 1 - start;
                    let iss2 = if count > MAX_FUNCTION_LINES {
                        iss.push(
                            iv(
                                start,
                                Severity::Warning,
                                IssueKind::LongFn,
                                decimal(count as nat) + " lines: "@ + name,
                            ),
                        )
                    } else {
                        iss
                    };
                    (iss2, None, d2)
                } else {
                    (iss, open, d2)
                }
            },
            None => if fn_head(t) {
                let brace = find_char(t, '{');
                let semi = find_char(t, ';');
                if semi is Some && (brace is None || brace.unwrap() > semi.unwrap()) {
                    (iss, None, d)
                } else if brace is Some {
                    let d2 = 1 + count_char(t, '{') - count_char(t, '}');
                    if d2 == 0 {
                        (iss, None, d2)
                    } else {
                        (iss, Some(((i + 1) as nat, trim(before_paren(t)))), d2)
                    }
                } else {
                    (iss, None, d)
                }
            } else {
                (iss, None, d)
            },
        }
    }
}

/// What the long-function check reports for the source text `c`.
pub open spec fn long_fn_issues(c: Seq<char>) -> Seq<IssueView> {
    long_fn_state(str_lines(c), str_lines(c).len()).0
}

/// Reports functions longer than `MAX_FUNCTION_LINES` lines, found by
/// counting braces from a line that starts a function definition.
pub fn long_functions(c: &[char], issues: &mut Vec<Issue>)
    requires
        c@.len() < i32::MAX,
    ensures
        issues_view(final(issues)@) == issues_view(old(issues)@) + long_fn_issues(c@),
{
    let lines = split_lines(c);
    let ghost ls = lines_view(lines@);
    proof {
        lemma_lines_total(c@);
    }
    let mut fn_start: Option<(usize, Vec<char>)> = None;
    let mut brace_depth: i32 = 0;
    let mut i: usize = 0;
    assert(issues_view(issues@) =~= issues_view(old(issues)@) + Seq::<IssueView>::empty());
    while i < lines.len()
        invariant
            ls == lines_view(lines@),
            ls == str_lines(c@),
            total_len(ls) <= c@.len() < i32::MAX,
            i <= lines@.len(),
            issues_view(issues@) == issues_view(old(issues)@) + long_fn_state(ls, i as nat).0,
            long_fn_state(ls, i as nat).1 == match fn_start {
                Some((st, nm)) => Some((st as nat, nm@)),
                None => None::<(nat, Seq<char>)>,
            },
            brace_depth as int == long_fn_state(ls, i as nat).2,
            -total_len(ls.subrange(0, i as int)) - 1 <= brace_depth <= total_len(
                ls.subrange(0, i as int),
            ) + 1,
            fn_start matches Some((st, nm)) ==> 1 <= st <= i,
        decreases lines@.len() - i,
    {
        proof {
            lemma_total_len_prefix(ls, i as int);
        }
        let line = &lines[i];
        assert(line@ == ls[i as int]);
        let t = trim_chars(line.as_slice());
        proof {
            lemma_trim_len(line@);
            lemma_count_char_bound(t@, '{');
            lemma_count_char_bound(t@, '}');
        }
        let opens = count_chars(&t, '{');
        let closes = count_chars(&t, '}');
        let ghost iss0 = issues_view(issues@);
        match fn_start {
            Some((start, name)) => {
                brace_depth = brace_depth + opens as i32 - closes as i32;
                if brace_depth == 0 {
                    let count = i + 1 - start;
                    if count > MAX_FUNCTION_LINES {
                        let mut m: Vec<char> = Vec::new();
                        push_decimal(&mut m, count as u64);
                        push_str(&mut m, " lines: ");
                        push_chars(&mut m, &name);
                        emit(issues, start, Severity::Warning, IssueKind::LongFn, m);
                        assert(issues_view(issues@) =~= issues_view(old(issues)@) + long_fn_state(
                            ls,
                            (i + 1) as nat,
                        ).0);
                    }
                    fn_start = None;
                } else {
                    fn_start = Some((start, name));
                }
            },
            None => {
                if is_fn_head(&t) {
                    let brace = find_first(&t, '{');
                    let semi = find_first(&t, ';');
                    let skip = match semi {
                        Some(sp) => match brace {
                            Some(b) => b > sp,
                            None => true,
                        },
                        None => false,
                    };
                    if !skip && brace.is_some() {
                        brace_depth = 1 + opens as i32 - closes as i32;
                        if brace_depth != 0 {
                            let before = text_before_paren(&t);
                            let name = trim_chars(&before);
                            fn_start = Some((i + 1, name));
                        }
                    }
                }
            },
        }
        i += 1;
    }
}


// ---------------------------------------------------------------- scanners

/// The lines of a text of bounded size have bounded UTF-8 lengths.
pub proof fn lemma_lines_fit(c: Seq<char>)
    requires
        4 * c.len() <= usize::MAX,
    ensures
        lines_fit(str_lines(c)),
{
    lemma_lines_total(c);
    assert forall|i: int| 0 <= i < str_lines(c).len() implies 4 * (#[trigger] str_lines(c)[i]).len()
        <= usize::MAX by {
        lemma_total_len_each(str_lines(c), i);
    }
}

/// What the end-of-file check reports: a warning at the last line when the
/// text does not end with a newline.
pub open spec fn eof_issues(c: Seq<char>) -> Seq<IssueView> {
    if c.len() > 0 && c.last() == '\n' {
        Seq::empty()
    } else {
        seq![iv(str_lines(c).len(), Severity::Warning, IssueKind::NoEofNewline, Seq::empty())]
    }
}

/// Reports a text that does not end with a newline.
pub fn eof_newline(c: &[char], issues: &mut Vec<Issue>)
    ensures
        issues_view(final(issues)@) == issues_view(old(issues)@) + eof_issues(c@),
{
    if !(c.len() > 0 && c[c.len() - 1] == '\n') {
        let lines = split_lines(c);
        let ghost before = issues_view(issues@);
        emit(issues, lines.len(), Severity::Warning, IssueKind::NoEofNewline, Vec::new());
        assert(lines_view(lines@).len() == lines@.len());
        assert(issues_view(issues@) =~= before + eof_issues(c@));
    } else {
        assert(issues_view(issues@) =~= issues_view(old(issues)@) + eof_issues(c@));
    }
}

/// Reports lines that end in white space.
pub fn trailing_whitespace(c: &[char], issues: &mut Vec<Issue>)
    requires
        4 * c@.len() <= usize::MAX,
    ensures
        issues_view(final(issues)@) == issues_view(old(issues)@) + check_issues(
            LineCheck::TrailingWhitespace,
            c@,
        ),
{
    let lines = split_lines(c);
    proof {
        lemma_lines_fit(c@);
    }
    run_line_check(LineCheck::TrailingWhitespace, &lines, issues);
}

/// Reports lines longer than `MAX_LINE_LENGTH` bytes.
pub fn line_length(c: &[char], issues: &mut Vec<Issue>)
    requires
        4 * c@.len() <= usize::MAX,
    ensures
        issues_view(final(issues)@) == issues_view(old(issues)@) + check_issues(
            LineCheck::LineLength,
            c@,
        ),
{
    let lines = split_lines(c);
    proof {
        lemma_lines_fit(c@);
    }
    run_line_check(LineCheck::LineLength, &lines, issues);
}

/// Reports comment lines that mention `todo` or `fixme`, in any case.
pub fn todo_fixme(c: &[char], issues: &mut Vec<Issue>)
    requires
        4 * c@.len() <= usize::MAX,
    ensures
        issues_view(final(issues)@) == issues_view(old(issues)@) + check_issues(
            LineCheck::TodoFixme,
            c@,
        ),
{
    let lines = split_lines(c);
    proof {
        lemma_lines_fit(c@);
    }
    run_line_check(LineCheck::TodoFixme, &lines, issues);
}

/// Reports lines that open an `unsafe` block.
pub fn unsafe_blocks(c: &[char], issues: &mut Vec<Issue>)
    requires
        4 * c@.len() <= usize::MAX,
    ensures
        issues_view(final(issues)@) == issues_view(old(issues)@) + check_issues(
            LineCheck::UnsafeBlock,
            c@,
        ),
{
    let lines = split_lines(c);
    proof {
        lemma_lines_fit(c@);
    }
    run_line_check(LineCheck::UnsafeBlock, &lines, issues);
}

/// Reports lines that call `.unwrap()` outside a comment.
pub fn silent_unwrap(c: &[char], issues: &mut Vec<Issue>)
    requires
        4 * c@.len() <= usize::MAX,
    ensures
        issues_view(final(issues)@) == issues_view(old(issues)@) + check_issues(
            LineCheck::SilentUnwrap,
            c@,
        ),
{
    let lines = split_lines(c);
    proof {
        lemma_lines_fit(c@);
    }
    run_line_check(LineCheck::SilentUnwrap, &lines, issues);
}

/// Reports public items without a doc comment on the line before.
pub fn missing_docs(c: &[char], issues: &mut Vec<Issue>)
    requires
        4 * c@.len() <= usize::MAX,
    ensures
        issues_view(final(issues)@) == issues_view(old(issues)@) + check_issues(
            LineCheck::MissingDoc,
            c@,
        ),
{
    let lines = split_lines(c);
    proof {
        lemma_lines_fit(c@);
    }
    run_line_check(LineCheck::MissingDoc, &lines, issues);
}

/// Reports lines with numeric literals above 1 outside declarations.
pub fn magic_numbers(c: &[char], issues: &mut Vec<Issue>)
    requires
        4 * c@.len() <= usize::MAX,
    ensures
        issues_view(final(issues)@) == issues_view(old(issues)@) + check_issues(
            LineCheck::MagicNumber,
            c@,
        ),
{
    let lines = split_lines(c);
    proof {
        lemma_lines_fit(c@);
    }
    run_line_check(LineCheck::MagicNumber, &lines, issues);
}

/// Everything the code-check tool reports for the source text `c`, in the order
/// the checks run.
pub open spec fn file_issues(c: Seq<char>) -> Seq<IssueView> {
    check_issues(LineCheck::TrailingWhitespace, c) + check_issues(LineCheck::LineLength, c)
        + eof_issues(c) + check_issues(LineCheck::TodoFixme, c) + check_issues(
        LineCheck::UnsafeBlock,
        c,
    ) + check_issues(LineCheck::SilentUnwrap, c) + check_issues(LineCheck::MissingDoc, c)
        + nesting_issues(c) + check_issues(LineCheck::MagicNumber, c) + long_fn_issues(c)
}

/// Runs all checks on one source file.
pub fn scan_file(content: &str) -> (issues: Vec<Issue>)
    requires
        content@.len() < i32::MAX,
        4 * content@.len() <= usize::MAX,
    ensures
        issues_view(issues@) == file_issues(content@),
{
    let c = chars_of(content);
    let mut issues: Vec<Issue> = Vec::new();
    let ghost e = issues_view(issues@);
    trailing_whitespace(&c, &mut issues);
    line_length(&c, &mut issues);
    eof_newline(&c, &mut issues);
    todo_fixme(&c, &mut issues);
    unsafe_blocks(&c, &mut issues);
    silent_unwrap(&c, &mut issues);
    missing_docs(&c, &mut issues);
    deep_nesting(&c, &mut issues);
    magic_numbers(&c, &mut issues);
    long_functions(&c, &mut issues);
    assert(e =~= Seq::<IssueView>::empty());
    assert(issues_view(issues@) =~= file_issues(content@));
    issues
}


// ---------------------------------------------------------------- function names

/// The trailing run of non-white-space characters of `e`.
pub open spec fn word_tail(e: Seq<char>) -> Seq<char>
    decreases e.len(),
{
    if e.len() == 0 || is_ws(e.last()) {
        Seq::empty()
    } else {
        word_tail(e.drop_last()).push(e.last())
    }
}

/// The last white-space-separated word of `s` (`s.split_whitespace().last()`).
pub open spec fn last_word(s: Seq<char>) -> Option<Seq<char>> {
    let e = trim_end(s);
    if e.len() == 0 {
        None
    } else {
        Some(word_tail(e))
    }
}

/// Finds the last white-space-separated word of `s`.
pub fn find_last_word(s: &[char]) -> (r: Option<Vec<char>>)
    ensures
        match last_word(s@) {
            Some(w) => r matches Some(v) && v@ == w,
            None => r is None,
        },
{
    let mut end = s.len();
    assert(s@.subrange(0, end as int) =~= s@);
    while end > 0 && char_is_ws(s[end - 1])
        invariant
            end <= s@.len(),
            trim_end(s@) == trim_end(s@.subrange(0, end as int)),
        decreases end,
    {
        assert(s@.subrange(0, end as int).drop_last() =~= s@.subrange(0, end - 1));
        end -= 1;
    }
    let ghost e = s@.subrange(0, end as int);
    assert(trim_end(e) == e);
    if end == 0 {
        return None;
    }
    let mut start = end;
    assert(e.subrange(start as int, end as int) =~= Seq::<char>::empty());
    assert(e.subrange(0, start as int) =~= e);
    assert(word_tail(e) + Seq::<char>::empty() =~= word_tail(e));
    while start > 0 && !char_is_ws(s[start - 1])
        invariant
            start <= end <= s@.len(),
            e == s@.subrange(0, end as int),
            word_tail(e) == word_tail(e.subrange(0, start as int)) + e.subrange(
                start as int,
                end as int,
            ),
        decreases start,
    {
        let ghost p = e.subrange(0, start as int);
        assert(p.drop_last() =~= e.subrange(0, start - 1));
        assert(word_tail(p) == word_tail(e.subrange(0, start - 1)).push(s@[start - 1]));
        assert(word_tail(e.subrange(0, start - 1)).push(s@[start - 1]) + e.subrange(
            start as int,
            end as int,
        ) =~= word_tail(e.subrange(0, start - 1)) + e.subrange(start - 1, end as int));
        start -= 1;
    }
    assert(word_tail(e.subrange(0, start as int)) =~= Seq::<char>::empty());
    assert(Seq::<char>::empty() + e.subrange(start as int, end as int) =~= s@.subrange(
        start as int,
        end as int,
    ));
    Some(sub_chars(s, start, end))
}

/// A function found in a file: its line and its name.
pub type FnView = (nat, Seq<char>);

/// The function finder's state after the first `k` lines: the functions
/// found, and whether it is inside a trait implementation.
pub open spec fn extract_state(lines: Seq<Seq<char>>, k: nat) -> (Seq<FnView>, bool)
    decreases k,
{
    if k == 0 {
        (Seq::empty(), false)
    } else {
        let (fs, in_trait) = extract_state(lines, (k - 1) as nat);
        let t = trim(lines[k - 1]);
        if starts_with(t, "impl"@) && contains(t, "for"@) && !(find_char(t, '{') is Some) {
            (fs, true)
        } else if in_trait {
            (fs, !(starts_with(t, "}"@) || starts_with(t, "impl"@)))
        } else if fn_head(t) && find_char(t, '{') is Some && !(find_char(t, ';') is Some) {
            match last_word(before_paren(t)) {
                Some(name) => if name.len() > 0 && name != "main"@ {
                    (fs.push((k, name)), false)
                } else {
                    (fs, false)
                },
                None => (fs, false),
            }
        } else {
            (fs, false)
        }
    }
}

/// The functions defined in the source text `c` outside trait
/// implementations, other than `main`.
pub open spec fn spec_extract_fns(c: Seq<char>) -> Seq<FnView> {
    extract_state(str_lines(c), str_lines(c).len()).0
}

/// The views of a list of found functions.
pub open spec fn fns_view(v: Seq<(usize, Vec<char>)>) -> Seq<FnView> {
    v.map_values(|f: (usize, Vec<char>)| (f.0 as nat, f.1@))
}

/// Finds the functions defined in a source text, with their lines.
pub fn extract_fns(content: &[char]) -> (fns: Vec<(usize, Vec<char>)>)
    ensures
        fns_view(fns@) == spec_extract_fns(content@),
{
    let lines = split_lines(content);
    let ghost ls = lines_view(lines@);
    let mut fns: Vec<(usize, Vec<char>)> = Vec::new();
    let mut in_trait = false;
    let mut i: usize = 0;
    let main = chars_of("main");
    assert(fns_view(fns@) =~= Seq::<FnView>::empty());
    while i < lines.len()
        invariant
            ls == lines_view(lines@),
            ls == str_lines(content@),
            main@ == "main"@,
            i <= lines@.len(),
            (fns_view(fns@), in_trait) == extract_state(ls, i as nat),
        decreases lines@.len() - i,
    {
        let line = &lines[i];
        assert(line@ == ls[i as int]);
        let t = trim_chars(line.as_slice());
        let opens = find_first(&t, '{');
        if starts_with_str(&t, "impl") && contains_str(&t, "for") && opens.is_none() {
            in_trait = true;
        } else if in_trait {
            if starts_with_str(&t, "}") || starts_with_str(&t, "impl") {
                in_trait = false;
            }
        } else if is_fn_head(&t) && opens.is_some() && find_first(&t, ';').is_none() {
            let head = text_before_paren(&t);
            match find_last_word(&head) {
                Some(name) => {
                    if name.len() > 0 && !chars_eq(&name, &main) {
                        let ghost before = fns_view(fns@);
                        fns.push((i + 1, name));
                        assert(fns_view(fns@) =~= before.push(((i + 1) as nat, name@)));
                    }
                },
                None => {},
            }
        }
        i += 1;
    }
    fns
}

/// How many non-overlapping occurrences of `p` there are in `s` from `i`,
/// scanning left to right (`str::matches(..).count()` for a non-empty `p`).
pub open spec fn match_count(s: Seq<char>, p: Seq<char>, i: int) -> nat
    decreases s.len() - i,
{
    if p.len() == 0 || i < 0 || i + p.len() > s.len() {
        0
    } else if occurs_at(s, p, i) {
        1 + match_count(s, p, i + p.len())
    } else {
        match_count(s, p, i + 1)
    }
}

/// Counts the non-overlapping occurrences of the non-empty `p` in `s`.
pub fn count_matches(s: &[char], p: &[char]) -> (n: usize)
    requires
        p@.len() > 0,
    ensures
        n == match_count(s@, p@, 0),
{
    let mut n: usize = 0;
    let mut i: usize = 0;
    while i <= s.len() && p.len() <= s.len() - i
        invariant
            p@.len() > 0,
            i <= s@.len() + 1,
            n <= i,
            match_count(s@, p@, 0) == n + match_count(s@, p@, i as int),
        decreases s@.len() + 1 - i,
    {
        if match_at(s, p, i) {
            n += 1;
            i += p.len();
        } else {
            i += 1;
        }
    }
    n
}

/// A function that looks unused: its file, its line and its name.
pub type DeadView = (Seq<char>, nat, Seq<char>);

/// All the files' contents, each followed by a newline.
pub open spec fn all_source(files: Seq<(Seq<char>, Seq<char>)>, k: nat) -> Seq<char>
    decreases k,
{
    if k == 0 {
        Seq::empty()
    } else {
        all_source(files, (k - 1) as nat) + files[k - 1].1 + seq!['\n']
    }
}

/// The function `name` looks unused in `all`: no other `fn name` and no
/// `name(`.
pub open spec fn looks_unused(all: Seq<char>, name: Seq<char>) -> bool {
    match_count(all, "fn "@ + name, 0) <= 1 && match_count(all, name + "("@, 0) == 0
}

/// The unused-looking functions among the first `m` of `fns` of file `rel`.
pub open spec fn dead_in_file(rel: Seq<char>, fns: Seq<FnView>, all: Seq<char>, m: nat) -> Seq<DeadView>
    decreases m,
{
    if m == 0 {
        Seq::empty()
    } else {
        let prev = dead_in_file(rel, fns, all, (m - 1) as nat);
        let f = fns[m - 1];
        if f.1 != "main"@ && looks_unused(all, f.1) {
            prev.push((rel, f.0, f.1))
        } else {
            prev
        }
    }
}

/// The unused-looking functions of the first `k` files.
pub open spec fn dead_in_files(files: Seq<(Seq<char>, Seq<char>)>, all: Seq<char>, k: nat) -> Seq<
    DeadView,
>
    decreases k,
{
    if k == 0 {
        Seq::empty()
    } else {
        let fns = spec_extract_fns(files[k - 1].1);
        dead_in_files(files, all, (k - 1) as nat) + dead_in_file(files[k - 1].0, fns, all, fns.len())
    }
}

/// The views of a list of (path, contents) pairs.
pub open spec fn sources_view(v: Seq<(Vec<char>, Vec<char>)>) -> Seq<(Seq<char>, Seq<char>)> {
    v.map_values(|f: (Vec<char>, Vec<char>)| (f.0@, f.1@))
}

/// The views of a list of unused-looking functions.
pub open spec fn dead_view(v: Seq<(Vec<char>, usize, Vec<char>)>) -> Seq<DeadView> {
    v.map_values(|d: (Vec<char>, usize, Vec<char>)| (d.0@, d.1 as nat, d.2@))
}

/// Finds functions that look unused across the given source files (path
/// and contents): a function is reported when its `fn name` occurs at most
/// once and `name(` never occurs in all the files together.
pub fn dead_code(files: &Vec<(Vec<char>, Vec<char>)>) -> (r: Vec<(Vec<char>, usize, Vec<char>)>)
    ensures
        dead_view(r@) == dead_in_files(
            sources_view(files@),
            all_source(sources_view(files@), files@.len()),
            files@.len(),
        ),
{
    let ghost fv = sources_view(files@);
    let mut all: Vec<char> = Vec::new();
    let mut k: usize = 0;
    assert(all@ =~= all_source(fv, 0));
    while k < files.len()
        invariant
            fv == sources_view(files@),
            k <= files@.len(),
            all@ == all_source(fv, k as nat),
        decreases files@.len() - k,
    {
        assert(fv[k as int] == (files@[k as int].0@, files@[k as int].1@));
        push_chars(&mut all, files[k].1.as_slice());
        all.push('\n');
        assert(all@ =~= all_source(fv, (k + 1) as nat));
        k += 1;
    }
    let ghost a = all@;
    let main = chars_of("main");
    let mut result: Vec<(Vec<char>, usize, Vec<char>)> = Vec::new();
    let mut f: usize = 0;
    assert(dead_view(result@) =~= dead_in_files(fv, a, 0));
    while f < files.len()
        invariant
            fv == sources_view(files@),
            a == all@,
            a == all_source(fv, files@.len()),
            main@ == "main"@,
            f <= files@.len(),
            dead_view(result@) == dead_in_files(fv, a, f as nat),
        decreases files@.len() - f,
    {
        assert(fv[f as int] == (files@[f as int].0@, files@[f as int].1@));
        let fns = extract_fns(files[f].1.as_slice());
        let ghost fnv = fns_view(fns@);
        let ghost base = dead_view(result@);
        let mut m: usize = 0;
        assert(base =~= base + dead_in_file(fv[f as int].0, fnv, a, 0));
        while m < fns.len()
            invariant
                fnv == fns_view(fns@),
                fnv == spec_extract_fns(fv[f as int].1),
                fv == sources_view(files@),
                f < files@.len(),
                a == all@,
                main@ == "main"@,
                m <= fns@.len(),
                dead_view(result@) == base + dead_in_file(fv[f as int].0, fnv, a, m as nat),
            decreases fns@.len() - m,
        {
            let (line, name) = (fns[m].0, &fns[m].1);
            assert(fnv[m as int] == (line as nat, name@));
            if !chars_eq(name, &main) {
                let mut p1: Vec<char> = Vec::new();
                push_str(&mut p1, "fn ");
                push_chars(&mut p1, name);
                let mut p2: Vec<char> = Vec::new();
                push_chars(&mut p2, name);
                push_str(&mut p2, "(");
                assert(p1@.len() > 0) by {
                    assert(("fn "@ + name@).len() >= "fn "@.len());
                    reveal_strlit("fn ");
                }
                assert(p2@.len() > 0) by {
                    reveal_strlit("(");
                }
                if count_matches(&all, &p1) <= 1 && count_matches(&all, &p2) == 0 {
                    let ghost before = dead_view(result@);
                    let rel = clone_chars(&files[f].0);
                    let nm = clone_chars(name);
                    result.push((rel, line, nm));
                    assert(dead_view(result@) =~= before.push((fv[f as int].0, line as nat, name@)));
                }
            }
            assert(dead_view(result@) =~= base + dead_in_file(fv[f as int].0, fnv, a, (m + 1) as nat));
            m += 1;
        }
        assert(dead_view(result@) =~= dead_in_files(fv, a, (f + 1) as nat));
        f += 1;
    }
    result
}

/// A copy of the characters `v`.
pub fn clone_chars(v: &Vec<char>) -> (r: Vec<char>)
    ensures
        r@ == v@,
{
    sub_chars(v.as_slice(), 0, v.len())
}


// ---------------------------------------------------------------- duplicates

/// A line that the duplicate finder ignores: blank, a comment, or a lone `{`.
pub open spec fn header_line(l: Seq<char>) -> bool {
    let t = trim(l);
    t.len() == 0 || starts_with(t, "//"@) || starts_with(t, "/*"@) || starts_with(t, "*"@)
        || starts_with(t, "*/"@) || t == "{"@
}

/// Whether the duplicate finder ignores a line.
pub fn is_header(l: &[char]) -> (b: bool)
    ensures
        b == header_line(l@),
{
    let t = trim_chars(l);
    let brace = chars_of("{");
    t.len() == 0 || starts_with_str(&t, "//") || starts_with_str(&t, "/*") || starts_with_str(
        &t,
        "*",
    ) || starts_with_str(&t, "*/") || chars_eq(&t, &brace)
}

/// The trimmed lines among the first `k` lines that are not ignored.
pub open spec fn kept_lines(ls: Seq<Seq<char>>, k: nat) -> Seq<Seq<char>>
    decreases k,
{
    if k == 0 {
        Seq::empty()
    } else {
        let prev = kept_lines(ls, (k - 1) as nat);
        let t = trim(ls[k - 1]);
        if header_line(t) {
            prev
        } else {
            prev.push(t)
        }
    }
}

/// The lines of a file that the duplicate finder compares.
pub open spec fn block_lines(c: Seq<char>) -> Seq<Seq<char>> {
    kept_lines(str_lines(c), str_lines(c).len())
}

/// The lines of a source text that the duplicate finder compares.
pub fn compared_lines(content: &[char]) -> (r: Vec<Vec<char>>)
    ensures
        lines_view(r@) == block_lines(content@),
{
    let lines = split_lines(content);
    let ghost ls = lines_view(lines@);
    let mut r: Vec<Vec<char>> = Vec::new();
    let mut i: usize = 0;
    assert(lines_view(r@) =~= kept_lines(ls, 0));
    while i < lines.len()
        invariant
            ls == lines_view(lines@),
            ls == str_lines(content@),
            i <= lines@.len(),
            lines_view(r@) == kept_lines(ls, i as nat),
        decreases lines@.len() - i,
    {
        assert(lines@[i as int]@ == ls[i as int]);
        let t = trim_chars(lines[i].as_slice());
        if !is_header(&t) {
            let ghost before = lines_view(r@);
            r.push(t);
            assert(lines_view(r@) =~= before.push(trim(ls[i as int])));
        }
        i += 1;
    }
    r
}

/// How many equal lines `a` and `b` have in a row from `i` and `j`.
pub open spec fn common_run(a: Seq<Seq<char>>, b: Seq<Seq<char>>, i: int, j: int) -> nat
    decreases a.len() - i,
{
    if 0 <= i < a.len() && 0 <= j < b.len() && a[i] == b[j] {
        1 + common_run(a, b, i + 1, j + 1)
    } else {
        0
    }
}

/// The first run of at least `DUPLICATE_MIN_LINES` equal lines starting at
/// line `s1` of `a` and some line from `s2` on of `b`: its length.
pub open spec fn first_run(a: Seq<Seq<char>>, b: Seq<Seq<char>>, s1: int, s2: int) -> Option<nat>
    decreases b.len() - s2,
{
    if s2 < 0 || s2 + DUPLICATE_MIN_LINES > b.len() {
        None
    } else if common_run(a, b, s1, s2) >= DUPLICATE_MIN_LINES {
        Some(common_run(a, b, s1, s2))
    } else {
        first_run(a, b, s1, s2 + 1)
    }
}

/// A duplicated run: the first file, the run's line there, the second
/// file, and the run's length.
pub type DupView = (Seq<char>, nat, Seq<char>, nat);

/// The runs found between `a` (file `f1`) and `b` (file `f2`) for the
/// first `n` start lines of `a`.
pub open spec fn dup_pair(
    f1: Seq<char>,
    a: Seq<Seq<char>>,
    f2: Seq<char>,
    b: Seq<Seq<char>>,
    n: nat,
) -> Seq<DupView>
    decreases n,
{
    if n == 0 {
        Seq::empty()
    } else {
        let prev = dup_pair(f1, a, f2, b, (n - 1) as nat);
        match first_run(a, b, n - 1, 0) {
            Some(len) => prev.push((f1, n, f2, len)),
            None => prev,
        }
    }
}

/// The runs found between two files' compared lines.
pub open spec fn pair_dups(f1: Seq<char>, a: Seq<Seq<char>>, f2: Seq<char>, b: Seq<Seq<char>>) -> Seq<
    DupView,
> {
    if a.len() < DUPLICATE_MIN_LINES || b.len() < DUPLICATE_MIN_LINES {
        Seq::empty()
    } else {
        dup_pair(f1, a, f2, b, (a.len() - DUPLICATE_MIN_LINES + 1) as nat)
    }
}

/// A file's path and its compared lines.
pub type BlockView = (Seq<char>, Seq<Seq<char>>);

/// The runs between file `i` and the files `i + 1 .. k`.
pub open spec fn dup_row(blocks: Seq<BlockView>, i: int, k: int) -> Seq<DupView>
    decreases k - i,
{
    if k <= i + 1 {
        Seq::empty()
    } else {
        dup_row(blocks, i, k - 1) + pair_dups(
            blocks[i].0,
            blocks[i].1,
            blocks[k - 1].0,
            blocks[k - 1].1,
        )
    }
}

/// The runs between each of the first `m` files and the files after it.
pub open spec fn dup_rows(blocks: Seq<BlockView>, m: nat) -> Seq<DupView>
    decreases m,
{
    if m == 0 {
        Seq::empty()
    } else {
        dup_rows(blocks, (m - 1) as nat) + dup_row(blocks, m - 1, blocks.len() as int)
    }
}

/// The compared lines of each source file.
pub open spec fn blocks_of(files: Seq<(Seq<char>, Seq<char>)>) -> Seq<BlockView> {
    Seq::new(files.len(), |i: int| (files[i].0, block_lines(files[i].1)))
}

/// The views of a list of duplicated runs.
pub open spec fn dups_view(v: Seq<(Vec<char>, usize, Vec<char>, usize)>) -> Seq<DupView> {
    v.map_values(|d: (Vec<char>, usize, Vec<char>, usize)| (d.0@, d.1 as nat, d.2@, d.3 as nat))
}

/// How many equal lines two files have in a row from `i` and `j`.
pub fn run_length(a: &Vec<Vec<char>>, b: &Vec<Vec<char>>, i: usize, j: usize) -> (n: usize)
    requires
        i <= a@.len(),
        j <= b@.len(),
    ensures
        n == common_run(lines_view(a@), lines_view(b@), i as int, j as int),
{
    let ghost av = lines_view(a@);
    let ghost bv = lines_view(b@);
    let mut len: usize = 0;
    let alen = a.len();
    let blen = b.len();
    while i + len < alen && j + len < blen && chars_eq(&a[i + len], &b[j + len])
        invariant
            av == lines_view(a@),
            bv == lines_view(b@),
            alen == a@.len(),
            blen == b@.len(),
            i + len <= a@.len(),
            j + len <= b@.len(),
            common_run(av, bv, i as int, j as int) == len + common_run(
                av,
                bv,
                i + len,
                j + len,
            ),
        decreases a@.len() - i - len,
    {
        assert(av[i + len] == a@[i + len]@);
        assert(bv[j + len] == b@[j + len]@);
        len += 1;
    }
    proof {
        if i + len < a@.len() && j + len < b@.len() {
            assert(av[i + len] == a@[i + len]@);
            assert(bv[j + len] == b@[j + len]@);
        }
    }
    len
}

/// Finds runs of at least `DUPLICATE_MIN_LINES` equal compared lines
/// between every two of the given source files (path and contents): for
/// each start line of the first file, the first such run in the second.
pub fn duplicate_code(files: &Vec<(Vec<char>, Vec<char>)>) -> (r: Vec<
    (Vec<char>, usize, Vec<char>, usize),
>)
    ensures
        dups_view(r@) == dup_rows(blocks_of(sources_view(files@)), files@.len()),
{
    let ghost fv = sources_view(files@);
    let ghost bl = blocks_of(fv);
    let mut blocks: Vec<Vec<Vec<char>>> = Vec::new();
    let mut k: usize = 0;
    while k < files.len()
        invariant
            fv == sources_view(files@),
            bl == blocks_of(fv),
            k <= files@.len(),
            blocks@.len() == k,
            forall|q: int| 0 <= q < k ==> lines_view(#[trigger] blocks@[q]@) == bl[q].1,
        decreases files@.len() - k,
    {
        assert(fv[k as int] == (files@[k as int].0@, files@[k as int].1@));
        let b = compared_lines(files[k].1.as_slice());
        blocks.push(b);
        k += 1;
    }
    let n = files.len();
    let mut result: Vec<(Vec<char>, usize, Vec<char>, usize)> = Vec::new();
    let mut i: usize = 0;
    assert(dups_view(result@) =~= dup_rows(bl, 0));
    while i < n
        invariant
            fv == sources_view(files@),
            bl == blocks_of(fv),
            n == files@.len(),
            bl.len() == n,
            blocks@.len() == n,
            forall|q: int| 0 <= q < n ==> lines_view(#[trigger] blocks@[q]@) == bl[q].1,
            i <= n,
            dups_view(result@) == dup_rows(bl, i as nat),
        decreases n - i,
    {
        let ghost row_base = dups_view(result@);
        let mut j: usize = i + 1;
        assert(row_base =~= row_base + dup_row(bl, i as int, j as int));
        while j < n
            invariant
                fv == sources_view(files@),
                bl == blocks_of(fv),
                n == files@.len(),
                bl.len() == n,
                blocks@.len() == n,
                forall|q: int| 0 <= q < n ==> lines_view(#[trigger] blocks@[q]@) == bl[q].1,
                i < n,
                i + 1 <= j <= n,
                dups_view(result@) == row_base + dup_row(bl, i as int, j as int),
            decreases n - j,
        {
            let l1 = &blocks[i];
            let l2 = &blocks[j];
            assert(lines_view(l1@) == bl[i as int].1);
            assert(lines_view(l2@) == bl[j as int].1);
            assert(bl[i as int].0 == files@[i as int].0@);
            assert(bl[j as int].0 == files@[j as int].0@);
            let ghost pair_base = dups_view(result@);
            if l1.len() >= DUPLICATE_MIN_LINES && l2.len() >= DUPLICATE_MIN_LINES {
                let l1len = l1.len();
                let l2len = l2.len();
                let last1 = l1len - DUPLICATE_MIN_LINES;
                let mut s1: usize = 0;
                assert(pair_base =~= pair_base + dup_pair(
                    bl[i as int].0,
                    bl[i as int].1,
                    bl[j as int].0,
                    bl[j as int].1,
                    0,
                ));
                while s1 <= last1
                    invariant
                        l1@.len() >= DUPLICATE_MIN_LINES,
                        l2@.len() >= DUPLICATE_MIN_LINES,
                        l1len == l1@.len(),
                        l2len == l2@.len(),
                        last1 == l1@.len() - DUPLICATE_MIN_LINES,
                        s1 <= last1 + 1,
                        lines_view(l1@) == bl[i as int].1,
                        lines_view(l2@) == bl[j as int].1,
                        bl[i as int].0 == files@[i as int].0@,
                        bl[j as int].0 == files@[j as int].0@,
                        i < n,
                        j < n,
                        n == files@.len(),
                        dups_view(result@) == pair_base + dup_pair(
                            bl[i as int].0,
                            bl[i as int].1,
                            bl[j as int].0,
                            bl[j as int].1,
                            s1 as nat,
                        ),
                    decreases last1 + 1 - s1,
                {
                    let ghost a = lines_view(l1@);
                    let ghost b = lines_view(l2@);
                    let last2 = l2len - DUPLICATE_MIN_LINES;
                    let mut s2: usize = 0;
                    let mut found: Option<usize> = None;
                    while s2 <= last2 && found.is_none()
                        invariant
                            a == lines_view(l1@),
                            b == lines_view(l2@),
                            l2len == l2@.len(),
                            last2 == l2@.len() - DUPLICATE_MIN_LINES,
                            l2@.len() >= DUPLICATE_MIN_LINES,
                            s1 <= l1@.len(),
                            s2 <= last2 + 1,
                            found is None ==> first_run(a, b, s1 as int, 0) == first_run(
                                a,
                                b,
                                s1 as int,
                                s2 as int,
                            ),
                            found matches Some(len) ==> first_run(a, b, s1 as int, 0) == Some(
                                len as nat,
                            ),
                        decreases last2 + 1 - s2, (if found is None { 1int } else { 0int }),
                    {
                        let len = run_length(l1, l2, s1, s2);
                        if len >= DUPLICATE_MIN_LINES {
                            found = Some(len);
                        } else {
                            s2 += 1;
                        }
                    }
                    let ghost before = dups_view(result@);
                    match found {
                        Some(len) => {
                            let f1 = clone_chars(&files[i].0);
                            let f2 = clone_chars(&files[j].0);
                            result.push((f1, s1 + 1, f2, len));
                            assert(dups_view(result@) =~= before.push(
                                (bl[i as int].0, (s1 + 1) as nat, bl[j as int].0, len as nat),
                            ));
                        },
                        None => {},
                    }
                    assert(dups_view(result@) =~= pair_base + dup_pair(
                        bl[i as int].0,
                        bl[i as int].1,
                        bl[j as int].0,
                        bl[j as int].1,
                        (s1 + 1) as nat,
                    ));
                    s1 += 1;
                }
            }
            assert(dups_view(result@) =~= row_base + dup_row(bl, i as int, (j + 1) as int));
            j += 1;
        }
        assert(dups_view(result@) =~= dup_rows(bl, (i + 1) as nat));
        i += 1;
    }
    result
}


/// A line check reports each line at most once, in line order, with line
/// numbers counted from 1 among the lines checked.
pub proof fn law_line_issues_ordered(which: LineCheck, lines: Seq<Seq<char>>, k: nat)
    ensures
        forall|i: int|
            0 <= i < line_issues(which, lines, k).len() ==> 1 <= (#[trigger] line_issues(
                which,
                lines,
                k,
            )[i]).line <= k,
        forall|i: int, j: int|
            0 <= i < j < line_issues(which, lines, k).len() ==> (#[trigger] line_issues(
                which,
                lines,
                k,
            )[i]).line < (#[trigger] line_issues(which, lines, k)[j]).line,
    decreases k,
{
    if k > 0 {
        law_line_issues_ordered(which, lines, (k - 1) as nat);
    }
}


/// A trimmed line that begins one of the public items the doc check asks
/// a comment for.
pub open spec fn declares_pub_item(t: Seq<char>) -> bool {
    ||| starts_with(t, "pub fn"@)
    ||| starts_with(t, "pub struct"@)
    ||| starts_with(t, "pub enum"@)
    ||| starts_with(t, "pub trait"@)
    ||| starts_with(t, "pub type"@)
    ||| starts_with(t, "pub const"@)
    ||| starts_with(t, "pub static"@)
    ||| starts_with(t, "pub unsafe"@)
}

/// The line before line `i` is a `///` or `//!` doc comment.
pub open spec fn doc_comment_before(lines: Seq<Seq<char>>, i: int) -> bool {
    i > 0 && (starts_with(trim(lines[i - 1]), "///"@) || starts_with(trim(lines[i - 1]), "//!"@))
}

/// A line check's issues for the first `k` lines hold the issue it reports
/// for each of them.
proof fn lemma_line_issues_holds(which: LineCheck, lines: Seq<Seq<char>>, k: nat, i: int)
    requires
        0 <= i < k,
        check_line(which, lines, i) is Some,
    ensures
        line_issues(which, lines, k).contains(check_line(which, lines, i).unwrap()),
    decreases k,
{
    let prev = line_issues(which, lines, (k - 1) as nat);
    if i < k - 1 {
        lemma_line_issues_holds(which, lines, (k - 1) as nat, i);
        let j = choose|j: int| 0 <= j < prev.len() && prev[j] == check_line(which, lines, i).unwrap();
        match check_line(which, lines, k - 1) {
            Some(v) => {
                assert(prev.push(v)[j] == prev[j]);
            },
            None => {},
        }
    } else {
        let v = check_line(which, lines, i).unwrap();
        assert(prev.push(v)[prev.len() as int] == v);
    }
}

/// The doc check reports every public item — a line that starts, once
/// trimmed, with `pub fn`, `pub struct`, `pub enum`, `pub trait`,
/// `pub type`, `pub const`, `pub static` or `pub unsafe` — whose line
/// before is not a `///` or `//!` comment, as an info with the line's
/// number and the item's text before any `(`; and it reports no other line.
pub proof fn law_missing_doc_reports_pub_items(lines: Seq<Seq<char>>, i: int)
    requires
        0 <= i < lines.len(),
    ensures
        declares_pub_item(trim(lines[i])) && !doc_comment_before(lines, i) ==> {
            let v = iv(
                (i + 1) as nat,
                Severity::Info,
                IssueKind::MissingDoc,
                trim(before_paren(trim(lines[i]))),
            );
            &&& check_line(LineCheck::MissingDoc, lines, i) == Some(v)
            &&& line_issues(LineCheck::MissingDoc, lines, lines.len()).contains(v)
        },
        !(declares_pub_item(trim(lines[i])) && !doc_comment_before(lines, i)) ==> check_line(
            LineCheck::MissingDoc,
            lines,
            i,
        ) is None,
{
    if declares_pub_item(trim(lines[i])) && !doc_comment_before(lines, i) {
        lemma_line_issues_holds(LineCheck::MissingDoc, lines, lines.len(), i);
    }
}

/// `common_run` counts equal lines in a row: the `n` lines of `a` from `i`
/// are equal to the `n` lines of `b` from `j`, pair by pair, and the run
/// stops at the end of either side or at the first pair that differs.
pub proof fn law_common_run_counts_equal_lines(a: Seq<Seq<char>>, b: Seq<Seq<char>>, i: int, j: int)
    requires
        0 <= i <= a.len(),
        0 <= j <= b.len(),
    ensures
        i + common_run(a, b, i, j) <= a.len(),
        j + common_run(a, b, i, j) <= b.len(),
        forall|p: int| i <= p < i + common_run(a, b, i, j) ==> #[trigger] a[p] == b[j + (p - i)],
        ({
            let n = common_run(a, b, i, j) as int;
            !(i + n < a.len() && j + n < b.len() && a[i + n] == b[j + n])
        }),
    decreases a.len() - i,
{
    if i < a.len() && j < b.len() && a[i] == b[j] {
        law_common_run_counts_equal_lines(a, b, i + 1, j + 1);
        assert(common_run(a, b, i, j) == 1 + common_run(a, b, i + 1, j + 1));
        assert forall|p: int| i <= p < i + common_run(a, b, i, j) implies #[trigger] a[p] == b[j
            + (p - i)] by {
            if p > i {
                assert(a[p] == b[(j + 1) + (p - (i + 1))]);
            }
        }
    } else {
        assert(common_run(a, b, i, j) == 0);
    }
}

/// Searching the second file from line `t`, the first start line `s2` at
/// which a run of at least five lines begins gives that run.
proof fn lemma_first_run_earliest(a: Seq<Seq<char>>, b: Seq<Seq<char>>, s1: int, t: int, s2: int)
    requires
        0 <= t <= s2,
        s2 + 5 <= b.len(),
        common_run(a, b, s1, s2) >= 5,
        forall|u: int| t <= u < s2 ==> #[trigger] common_run(a, b, s1, u) < 5,
    ensures
        first_run(a, b, s1, t) == Some(common_run(a, b, s1, s2)),
    decreases s2 - t,
{
    if t < s2 {
        assert(common_run(a, b, s1, t) < 5);
        lemma_first_run_earliest(a, b, s1, t + 1, s2);
    }
}

/// A run the search from line `t` gives is the run at the first start line
/// from `t` on that begins at least five equal lines.
proof fn lemma_first_run_sound(a: Seq<Seq<char>>, b: Seq<Seq<char>>, s1: int, t: int)
    requires
        0 <= t,
    ensures
        first_run(a, b, s1, t) matches Some(len) ==> exists|s2: int|
            #![trigger common_run(a, b, s1, s2)]
            t <= s2 && s2 + 5 <= b.len() && common_run(a, b, s1, s2) == len && len >= 5 && (forall|
                u: int,
            | t <= u < s2 ==> #[trigger] common_run(a, b, s1, u) < 5),
    decreases b.len() - t,
{
    if t + 5 <= b.len() && common_run(a, b, s1, t) < 5 {
        lemma_first_run_sound(a, b, s1, t + 1);
        if first_run(a, b, s1, t) is Some {
            let len = first_run(a, b, s1, t).unwrap();
            let s2 = choose|s2: int|
                #![trigger common_run(a, b, s1, s2)]
                t + 1 <= s2 && s2 + 5 <= b.len() && common_run(a, b, s1, s2) == len && len >= 5
                    && (forall|u: int| t + 1 <= u < s2 ==> #[trigger] common_run(a, b, s1, u) < 5);
            assert forall|u: int| t <= u < s2 implies #[trigger] common_run(a, b, s1, u) < 5 by {
                if u > t {
                    assert(t + 1 <= u < s2);
                }
            }
        }
    } else if t + 5 <= b.len() {
        assert(common_run(a, b, s1, t) == first_run(a, b, s1, t).unwrap());
    }
}

/// The runs kept for the first `n` start lines of `a` are, in order, those
/// start lines whose search finds a run.
proof fn lemma_dup_pair_members(
    f1: Seq<char>,
    a: Seq<Seq<char>>,
    f2: Seq<char>,
    b: Seq<Seq<char>>,
    n: nat,
    s1: int,
)
    requires
        0 <= s1 < n,
        first_run(a, b, s1, 0) is Some,
    ensures
        dup_pair(f1, a, f2, b, n).contains((f1, (s1 + 1) as nat, f2, first_run(a, b, s1, 0).unwrap())),
    decreases n,
{
    let prev = dup_pair(f1, a, f2, b, (n - 1) as nat);
    if s1 < n - 1 {
        lemma_dup_pair_members(f1, a, f2, b, (n - 1) as nat, s1);
        let d = (f1, (s1 + 1) as nat, f2, first_run(a, b, s1, 0).unwrap());
        let j = choose|j: int| 0 <= j < prev.len() && prev[j] == d;
        match first_run(a, b, n - 1, 0) {
            Some(len) => {
                assert(prev.push((f1, n, f2, len))[j] == d);
            },
            None => {},
        }
    } else {
        let d = (f1, n, f2, first_run(a, b, s1, 0).unwrap());
        assert(prev.push(d)[prev.len() as int] == d);
    }
}

/// Every run kept for the first `n` start lines of `a` comes from one of
/// them and is what the search from the second file's first line gives.
proof fn lemma_dup_pair_only(
    f1: Seq<char>,
    a: Seq<Seq<char>>,
    f2: Seq<char>,
    b: Seq<Seq<char>>,
    n: nat,
    k: int,
)
    requires
        0 <= k < dup_pair(f1, a, f2, b, n).len(),
    ensures
        ({
            let d = dup_pair(f1, a, f2, b, n)[k];
            &&& d.0 == f1 && d.2 == f2
            &&& 1 <= d.1 <= n
            &&& first_run(a, b, d.1 - 1, 0) == Some(d.3)
        }),
    decreases n,
{
    let prev = dup_pair(f1, a, f2, b, (n - 1) as nat);
    if k < prev.len() {
        lemma_dup_pair_only(f1, a, f2, b, (n - 1) as nat, k);
        match first_run(a, b, n - 1, 0) {
            Some(len) => {
                assert(prev.push((f1, n, f2, len))[k] == prev[k]);
            },
            None => {},
        }
    }
}

/// Duplicates between two files' compared lines `a` (file `f1`) and `b`
/// (file `f2`): for every start line `s1` of `a` with five lines after it,
/// when some start line of `b` — before `s1`, at it or after it — begins a
/// run of at least five equal lines, the run at the first such line of `b`
/// is reported as `(f1, s1 + 1, f2, its length)`.
pub proof fn law_duplicate_earliest_run_reported(
    f1: Seq<char>,
    a: Seq<Seq<char>>,
    f2: Seq<char>,
    b: Seq<Seq<char>>,
    s1: int,
    s2: int,
)
    requires
        0 <= s1 && s1 + 5 <= a.len(),
        0 <= s2 && s2 + 5 <= b.len(),
        common_run(a, b, s1, s2) >= 5,
        forall|u: int| 0 <= u < s2 ==> #[trigger] common_run(a, b, s1, u) < 5,
    ensures
        pair_dups(f1, a, f2, b).contains((f1, (s1 + 1) as nat, f2, common_run(a, b, s1, s2))),
{
    lemma_first_run_earliest(a, b, s1, 0, s2);
    lemma_dup_pair_members(f1, a, f2, b, (a.len() - DUPLICATE_MIN_LINES + 1) as nat, s1);
}

/// Every duplicate reported between two files is such a run: it names the
/// two files, a start line `s1 + 1` of the first with five lines after
/// it, and the length of the run at the first start line of the second
/// file that begins at least five equal lines with line `s1`.
pub proof fn law_duplicate_reports_only_runs(
    f1: Seq<char>,
    a: Seq<Seq<char>>,
    f2: Seq<char>,
    b: Seq<Seq<char>>,
    k: int,
)
    requires
        0 <= k < pair_dups(f1, a, f2, b).len(),
    ensures
        ({
            let d = pair_dups(f1, a, f2, b)[k];
            &&& d.0 == f1 && d.2 == f2
            &&& 1 <= d.1 && d.1 + 4 <= a.len()
            &&& exists|s2: int|
                #![trigger common_run(a, b, d.1 - 1, s2)]
                0 <= s2 && s2 + 5 <= b.len() && common_run(a, b, d.1 - 1, s2) == d.3 && d.3 >= 5
                    && (forall|u: int| 0 <= u < s2 ==> #[trigger] common_run(a, b, d.1 - 1, u) < 5)
        }),
{
    let n = (a.len() - DUPLICATE_MIN_LINES + 1) as nat;
    lemma_dup_pair_only(f1, a, f2, b, n, k);
    let d = pair_dups(f1, a, f2, b)[k];
    lemma_first_run_sound(a, b, d.1 - 1, 0);
}


/// The duplicates found between files `i` and `k` are among those of row `i`.
proof fn lemma_dup_row_holds(blocks: Seq<BlockView>, i: int, k: int, m: int, d: DupView)
    requires
        i < k < m,
        pair_dups(blocks[i].0, blocks[i].1, blocks[k].0, blocks[k].1).contains(d),
    ensures
        dup_row(blocks, i, m).contains(d),
    decreases m - i,
{
    let prev = dup_row(blocks, i, m - 1);
    let last = pair_dups(blocks[i].0, blocks[i].1, blocks[m - 1].0, blocks[m - 1].1);
    if k < m - 1 {
        lemma_dup_row_holds(blocks, i, k, m - 1, d);
        let j = choose|j: int| 0 <= j < prev.len() && prev[j] == d;
        assert((prev + last)[j] == d);
    } else {
        let j = choose|j: int| 0 <= j < last.len() && last[j] == d;
        assert((prev + last)[prev.len() + j] == d);
    }
}

/// The duplicates found between files `i` and `k` are among those of the
/// first `m` rows when `i < m`.
proof fn lemma_dup_rows_holds(blocks: Seq<BlockView>, i: int, k: int, m: nat, d: DupView)
    requires
        0 <= i < m,
        i < k < blocks.len(),
        pair_dups(blocks[i].0, blocks[i].1, blocks[k].0, blocks[k].1).contains(d),
    ensures
        dup_rows(blocks, m).contains(d),
    decreases m,
{
    let prev = dup_rows(blocks, (m - 1) as nat);
    let row = dup_row(blocks, m - 1, blocks.len() as int);
    if i < m - 1 {
        lemma_dup_rows_holds(blocks, i, k, (m - 1) as nat, d);
        let j = choose|j: int| 0 <= j < prev.len() && prev[j] == d;
        assert((prev + row)[j] == d);
    } else {
        lemma_dup_row_holds(blocks, i, k, blocks.len() as int, d);
        let j = choose|j: int| 0 <= j < row.len() && row[j] == d;
        assert((prev + row)[prev.len() + j] == d);
    }
}

/// Every two files are compared: each duplicate found between file `i`
/// and a later file `k` is among the duplicates found in all the files.
pub proof fn law_duplicates_cover_every_pair(blocks: Seq<BlockView>, i: int, k: int, d: DupView)
    requires
        0 <= i < k < blocks.len(),
        pair_dups(blocks[i].0, blocks[i].1, blocks[k].0, blocks[k].1).contains(d),
    ensures
        dup_rows(blocks, blocks.len()).contains(d),
{
    lemma_dup_rows_holds(blocks, i, k, blocks.len(), d);
}

} // verus!
