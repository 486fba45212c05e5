use vstd::prelude::*;
use vstd::utf8::*;

verus! {

/// `s` without its trailing space bytes.
pub open spec fn spec_trim_trailing_spaces(s: Seq<u8>) -> Seq<u8>
    decreases s.len(),
{
    if s.len() > 0 && s.last() == 0x20 {
        spec_trim_trailing_spaces(s.drop_last())
    } else {
        s
    }
}

/// The length of `s` without its trailing spaces.
pub fn trim_trailing_spaces(s: &[u8]) -> (n: usize)
    ensures
        n <= s@.len(),
        s@.subrange(0, n as int) == spec_trim_trailing_spaces(s@),
{
    let mut end = s.len();
    assert(s@.subrange(0, end as int) =~= s@);
    while end > 0 && s[end - 1] == 0x20
        invariant
            end <= s@.len(),
            spec_trim_trailing_spaces(s@) == spec_trim_trailing_spaces(s@.subrange(0, end as int)),
        decreases end,
    {
        assert(s@.subrange(0, end as int).drop_last() =~= s@.subrange(0, end - 1));
        end -= 1;
    }
    end
}

/// Calls `core::str::from_utf8`, which succeeds exactly on valid UTF-8, and
/// then gives the string the bytes encode.
#[verifier::external_body]
fn str_from_utf8(b: &[u8]) -> (r: Option<&str>)
    ensures
        r is Some <==> valid_utf8(b@),
        r matches Some(s) ==> s@ == decode_utf8(b@),
{
    match core::str::from_utf8(b) {
        Ok(s) => Some(s),
        Err(_) => None,
    }
}

/// Decodes `b` as UTF-8 into an owned string, or `None` when it is not
/// valid UTF-8.
pub fn utf8_to_string(b: &[u8]) -> (r: Option<String>)
    ensures
        r is Some <==> valid_utf8(b@),
        r matches Some(s) ==> s@ == decode_utf8(b@),
{
    match str_from_utf8(b) {
        Some(s) => Some(s.to_owned()),
        None => None,
    }
}


/// The characters of `s`.
pub fn chars_of(s: &str) -> (v: Vec<char>)
    ensures
        v@ == s@,
{
    let mut v: Vec<char> = Vec::new();
    for c in it: s.chars()
        invariant
            v@ == it.seq().take(it.index() as int),
            it.seq() == s@,
    {
        v.push(c);
    }
    v
}


/// `c` has the Unicode `White_Space` property (what `char::is_whitespace` tests).
pub open spec fn is_ws(c: char) -> bool {
    let u = c as u32;
    (0x09 <= u <= 0x0D) || u == 0x20 || u == 0x85 || u == 0xA0 || u == 0x1680 || (0x2000 <= u
        <= 0x200A) || u == 0x2028 || u == 0x2029 || u == 0x202F || u == 0x205F || u == 0x3000
}

/// Whether `c` is white space.
pub fn char_is_ws(c: char) -> (b: bool)
    ensures
        b == is_ws(c),
{
    let u = c as u32;
    (0x09 <= u && u <= 0x0D) || u == 0x20 || u == 0x85 || u == 0xA0 || u == 0x1680 || (0x2000 <= u
        && u <= 0x200A) || u == 0x2028 || u == 0x2029 || u == 0x202F || u == 0x205F || u == 0x3000
}

/// `s` without its leading white space.
pub open spec fn trim_start(s: Seq<char>) -> Seq<char>
    decreases s.len(),
{
    if s.len() > 0 && is_ws(s[0]) {
        trim_start(s.drop_first())
    } else {
        s
    }
}

/// `s` without its trailing white space.
pub open spec fn trim_end(s: Seq<char>) -> Seq<char>
    decreases s.len(),
{
    if s.len() > 0 && is_ws(s.last()) {
        trim_end(s.drop_last())
    } else {
        s
    }
}

/// `s` without leading and trailing white space (`str::trim`).
pub open spec fn trim(s: Seq<char>) -> Seq<char> {
    trim_end(trim_start(s))
}

/// The characters of `s` from `a` to `b`.
pub fn sub_chars(s: &[char], a: usize, b: usize) -> (r: Vec<char>)
    requires
        a <= b <= s@.len(),
    ensures
        r@ == s@.subrange(a as int, b as int),
{
    let mut r: Vec<char> = Vec::new();
    let mut i = a;
    while i < b
        invariant
            a <= i <= b,
            b <= s@.len(),
            r@ == s@.subrange(a as int, i as int),
        decreases b - i,
    {
        r.push(s[i]);
        i += 1;
        assert(r@ =~= s@.subrange(a as int, i as int));
    }
    r
}

/// `s` without leading and trailing white space.
pub fn trim_chars(s: &[char]) -> (r: Vec<char>)
    ensures
        r@ == trim(s@),
{
    let n = s.len();
    let mut a: usize = 0;
    assert(s@.subrange(0, n as int) =~= s@);
    while a < n && char_is_ws(s[a])
        invariant
            a <= n,
            n == s@.len(),
            trim_start(s@) == trim_start(s@.subrange(a as int, n as int)),
        decreases n - a,
    {
        assert(s@.subrange(a as int, n as int).drop_first() =~= s@.subrange(a + 1, n as int));
        a += 1;
    }
    let ghost t = s@.subrange(a as int, n as int);
    assert(trim_start(t) == t);
    let mut b: usize = n;
    assert(t.subrange(0, (b - a) as int) =~= t);
    while b > a && char_is_ws(s[b - 1])
        invariant
            a <= b <= n,
            n == s@.len(),
            t == s@.subrange(a as int, n as int),
            trim_end(t) == trim_end(t.subrange(0, (b - a) as int)),
        decreases b,
    {
        assert(t.subrange(0, (b - a) as int).drop_last() =~= t.subrange(0, (b - 1 - a) as int));
        b -= 1;
    }
    assert(t.subrange(0, (b - a) as int) =~= s@.subrange(a as int, b as int));
    sub_chars(s, a, b)
}

/// `s` starts with `p`.
pub open spec fn starts_with(s: Seq<char>, p: Seq<char>) -> bool {
    p.len() <= s.len() && s.subrange(0, p.len() as int) == p
}

/// `s` ends with `p`.
pub open spec fn ends_with(s: Seq<char>, p: Seq<char>) -> bool {
    p.len() <= s.len() && s.subrange(s.len() - p.len(), s.len() as int) == p
}

/// `p` occurs in `s` at position `i`.
pub open spec fn occurs_at(s: Seq<char>, p: Seq<char>, i: int) -> bool {
    0 <= i && i + p.len() <= s.len() && s.subrange(i, i + p.len()) == p
}

/// `p` occurs in `s`.
pub open spec fn contains(s: Seq<char>, p: Seq<char>) -> bool {
    exists|i: int| occurs_at(s, p, i)
}

/// Whether `p` occurs in `s` at position `i`.
pub fn match_at(s: &[char], p: &[char], i: usize) -> (b: bool)
    ensures
        b == occurs_at(s@, p@, i as int),
{
    if i > s.len() || p.len() > s.len() - i {
        return false;
    }
    let sl = s.len();
    let mut j: usize = 0;
    while j < p.len()
        invariant
            sl == s@.len(),
            i + p@.len() <= s@.len(),
            j <= p@.len(),
            forall|k: int| 0 <= k < j ==> s@[i + k] == p@[k],
        decreases p@.len() - j,
    {
        if s[i + j] != p[j] {
            assert(s@.subrange(i as int, i + p@.len())[j as int] != p@[j as int]);
            return false;
        }
        j += 1;
    }
    assert(s@.subrange(i as int, i + p@.len()) =~= p@);
    true
}

/// Whether `s` starts with `p`.
pub fn has_prefix(s: &[char], p: &[char]) -> (b: bool)
    ensures
        b == starts_with(s@, p@),
{
    match_at(s, p, 0)
}

/// Whether `s` ends with `p`.
pub fn has_suffix(s: &[char], p: &[char]) -> (b: bool)
    ensures
        b == ends_with(s@, p@),
{
    if p.len() > s.len() {
        return false;
    }
    match_at(s, p, s.len() - p.len())
}

/// Whether `p` occurs in `s`.
pub fn has_substring(s: &[char], p: &[char]) -> (b: bool)
    ensures
        b == contains(s@, p@),
{
    if p.len() > s.len() {
        return false;
    }
    if p.len() == 0 {
        assert(s@.subrange(0, 0) =~= p@);
        assert(occurs_at(s@, p@, 0));
        return true;
    }
    let mut i: usize = 0;
    while i <= s.len() - p.len()
        invariant
            1 <= p@.len() <= s@.len(),
            i <= s@.len() - p@.len() + 1,
            forall|k: int| 0 <= k < i ==> !occurs_at(s@, p@, k),
        decreases s@.len() - p@.len() + 1 - i,
    {
        if match_at(s, p, i) {
            return true;
        }
        i += 1;
    }
    false
}

/// The decimal digits of `n`.
pub open spec fn decimal(n: nat) -> Seq<char>
    decreases n,
{
    if n < 10 {
        seq![(('0' as u32) + n) as char]
    } else {
        decimal(n / 10).push((('0' as u32) + n % 10) as char)
    }
}

/// Appends the decimal digits of `n` to `out`.
pub fn push_decimal(out: &mut Vec<char>, n: u64)
    ensures
        final(out)@ == old(out)@ + decimal(n as nat),
    decreases n,
{
    if n >= 10 {
        push_decimal(out, n / 10);
    }
    let d = (n % 10) as u32;
    let c = char_from_digit(d);
    out.push(c);
    assert(final(out)@ =~= old(out)@ + decimal(n as nat));
}

/// The character of the decimal digit `d`.
pub fn char_from_digit(d: u32) -> (c: char)
    requires
        d < 10,
    ensures
        c == (('0' as u32) + d) as char,
{
    match d {
        0 => '0',
        1 => '1',
        2 => '2',
        3 => '3',
        4 => '4',
        5 => '5',
        6 => '6',
        7 => '7',
        8 => '8',
        _ => '9',
    }
}


/// The pieces of `s` between the `sep` characters (`str::split`).
pub open spec fn split_seq(s: Seq<char>, sep: char) -> Seq<Seq<char>>
    decreases s.len(),
{
    if s.len() == 0 {
        seq![Seq::<char>::empty()]
    } else {
        let prev = split_seq(s.drop_last(), sep);
        if s.last() == sep {
            prev.push(Seq::<char>::empty())
        } else {
            prev.update(prev.len() - 1, prev.last().push(s.last()))
        }
    }
}

/// `split_seq` never yields an empty list.
pub proof fn lemma_split_seq_nonempty(s: Seq<char>, sep: char)
    ensures
        split_seq(s, sep).len() >= 1,
    decreases s.len(),
{
    if s.len() > 0 {
        lemma_split_seq_nonempty(s.drop_last(), sep);
    }
}

/// A line without the carriage return that ended it.
pub open spec fn strip_cr(l: Seq<char>) -> Seq<char> {
    if l.len() > 0 && l.last() == '\r' {
        l.drop_last()
    } else {
        l
    }
}

/// The lines of `c` as `str::lines` gives them: split at `\n`, a `\r`
/// before the `\n` dropped, and no empty last line after a final `\n`.
pub open spec fn str_lines(c: Seq<char>) -> Seq<Seq<char>> {
    let parts = split_seq(c, '\n');
    let body = Seq::new((parts.len() - 1) as nat, |i: int| strip_cr(parts[i]));
    if parts.last().len() == 0 {
        body
    } else {
        body.push(parts.last())
    }
}

/// The character sequences held by a list of character vectors.
pub open spec fn lines_view(v: Seq<Vec<char>>) -> Seq<Seq<char>> {
    v.map_values(|l: Vec<char>| l@)
}

/// Splits `c` into its lines.
pub fn split_lines(c: &[char]) -> (lines: Vec<Vec<char>>)
    ensures
        lines_view(lines@) == str_lines(c@),
{
    let n = c.len();
    let mut lines: Vec<Vec<char>> = Vec::new();
    let mut cur: Vec<char> = Vec::new();
    let mut k: usize = 0;
    assert(c@.subrange(0, 0) =~= Seq::<char>::empty());
    assert(lines_view(lines@) =~= Seq::new(
        (split_seq(c@.subrange(0, 0), '\n').len() - 1) as nat,
        |i: int| strip_cr(split_seq(c@.subrange(0, 0), '\n')[i]),
    ));
    while k < n
        invariant
            k <= n,
            n == c@.len(),
            split_seq(c@.subrange(0, k as int), '\n').len() >= 1,
            cur@ == split_seq(c@.subrange(0, k as int), '\n').last(),
            lines_view(lines@) == Seq::new(
                (split_seq(c@.subrange(0, k as int), '\n').len() - 1) as nat,
                |i: int| strip_cr(split_seq(c@.subrange(0, k as int), '\n')[i]),
            ),
        decreases n - k,
    {
        let ghost pre = c@.subrange(0, k as int);
        let ghost next = c@.subrange(0, k + 1);
        assert(next.drop_last() =~= pre);
        assert(next.last() == c@[k as int]);
        let ghost pp = split_seq(pre, '\n');
        let ghost np = split_seq(next, '\n');
        proof {
            lemma_split_seq_nonempty(next, '\n');
        }
        if c[k] == '\n' {
            let mut done = cur;
            let dl = done.len();
            if dl > 0 && done[dl - 1] == '\r' {
                done.pop();
            }
            assert(done@ == strip_cr(pp.last()));
            cur = Vec::new();
            let ghost before = lines_view(lines@);
            lines.push(done);
            assert(lines_view(lines@) =~= before.push(done@));
            assert(lines_view(lines@) =~= Seq::new(
                (np.len() - 1) as nat,
                |i: int| strip_cr(np[i]),
            ));
        } else {
            cur.push(c[k]);
            assert(lines_view(lines@) =~= Seq::new(
                (np.len() - 1) as nat,
                |i: int| strip_cr(np[i]),
            ));
        }
        k += 1;
    }
    assert(c@.subrange(0, n as int) =~= c@);
    if cur.len() > 0 {
        let ghost before = lines_view(lines@);
        lines.push(cur);
        assert(lines_view(lines@) =~= before.push(split_seq(c@, '\n').last()));
    }
    lines
}


/// The number of characters in all of `ls`.
pub open spec fn total_len(ls: Seq<Seq<char>>) -> nat
    decreases ls.len(),
{
    if ls.len() == 0 {
        0
    } else {
        total_len(ls.drop_last()) + ls.last().len()
    }
}

proof fn lemma_split_seq_total(s: Seq<char>, sep: char)
    ensures
        total_len(split_seq(s, sep)) + split_seq(s, sep).len() == s.len() + 1,
    decreases s.len(),
{
    if s.len() > 0 {
        let prev = split_seq(s.drop_last(), sep);
        lemma_split_seq_total(s.drop_last(), sep);
        lemma_split_seq_nonempty(s.drop_last(), sep);
        if s.last() == sep {
            assert(split_seq(s, sep) == prev.push(Seq::<char>::empty()));
            assert(prev.push(Seq::<char>::empty()).drop_last() =~= prev);
            assert(total_len(prev.push(Seq::<char>::empty())) == total_len(prev));
            assert(prev.len() == split_seq(s.drop_last(), sep).len());
            assert(s.drop_last().len() + 1 == s.len());
            assert(total_len(split_seq(s, sep)) + split_seq(s, sep).len() == s.len() + 1);
        } else {
            let u = prev.update(prev.len() - 1, prev.last().push(s.last()));
            assert(split_seq(s, sep) == u);
            assert(u.drop_last() =~= prev.drop_last());
            assert(u.last() == prev.last().push(s.last()));
            assert(total_len(prev) == total_len(prev.drop_last()) + prev.last().len());
            assert(total_len(u) == total_len(u.drop_last()) + u.last().len());
        }
    } else {
        let p = split_seq(s, sep);
        assert(p == seq![Seq::<char>::empty()]);
        assert(p.last().len() == 0);
        assert(p.drop_last() =~= Seq::<Seq<char>>::empty());
        assert(total_len(p.drop_last()) == 0);
        assert(total_len(p) == 0);
        assert(p.len() == 1);
    }
}

proof fn lemma_map_strip_total(parts: Seq<Seq<char>>, m: nat)
    requires
        m <= parts.len(),
    ensures
        total_len(Seq::new(m, |i: int| strip_cr(parts[i]))) <= total_len(parts.subrange(0, m as int)),
    decreases m,
{
    if m > 0 {
        lemma_map_strip_total(parts, (m - 1) as nat);
        assert(Seq::new(m, |i: int| strip_cr(parts[i])).drop_last() =~= Seq::new(
            (m - 1) as nat,
            |i: int| strip_cr(parts[i]),
        ));
        assert(parts.subrange(0, m as int).drop_last() =~= parts.subrange(0, m - 1));
    }
}

/// All the lines of `c` together hold no more characters than `c`.
pub proof fn lemma_lines_total(c: Seq<char>)
    ensures
        total_len(str_lines(c)) <= c.len(),
{
    let parts = split_seq(c, '\n');
    lemma_split_seq_total(c, '\n');
    lemma_split_seq_nonempty(c, '\n');
    let n = parts.len();
    lemma_map_strip_total(parts, (n - 1) as nat);
    let body = Seq::new((n - 1) as nat, |i: int| strip_cr(parts[i]));
    assert(parts.drop_last() =~= parts.subrange(0, n - 1));
    if parts.last().len() != 0 {
        assert(body.push(parts.last()).drop_last() =~= body);
    }
}

/// Each line is no longer than all lines together.
pub proof fn lemma_total_len_each(ls: Seq<Seq<char>>, i: int)
    requires
        0 <= i < ls.len(),
    ensures
        ls[i].len() <= total_len(ls),
    decreases ls.len(),
{
    if i < ls.len() - 1 {
        lemma_total_len_each(ls.drop_last(), i);
    }
}

/// The characters of the first `k` lines.
pub proof fn lemma_total_len_prefix(ls: Seq<Seq<char>>, k: int)
    requires
        0 <= k < ls.len(),
    ensures
        total_len(ls.subrange(0, k + 1)) == total_len(ls.subrange(0, k)) + ls[k].len(),
        total_len(ls.subrange(0, k + 1)) <= total_len(ls),
    decreases ls.len() - k,
{
    assert(ls.subrange(0, k + 1).drop_last() =~= ls.subrange(0, k));
    if k + 1 < ls.len() {
        lemma_total_len_prefix(ls, k + 1);
    } else {
        assert(ls.subrange(0, k + 1) =~= ls);
    }
}


/// Trimming never lengthens.
pub proof fn lemma_trim_len(s: Seq<char>)
    ensures
        trim(s).len() <= s.len(),
        trim_start(s).len() <= s.len(),
{
    lemma_trim_start_len(s);
    lemma_trim_end_len(trim_start(s));
}

proof fn lemma_trim_start_len(s: Seq<char>)
    ensures
        trim_start(s).len() <= s.len(),
    decreases s.len(),
{
    if s.len() > 0 && is_ws(s[0]) {
        lemma_trim_start_len(s.drop_first());
    }
}

proof fn lemma_trim_end_len(s: Seq<char>)
    ensures
        trim_end(s).len() <= s.len(),
    decreases s.len(),
{
    if s.len() > 0 && is_ws(s.last()) {
        lemma_trim_end_len(s.drop_last());
    }
}

/// How often `ch` occurs in `s`.
pub open spec fn count_char(s: Seq<char>, ch: char) -> nat
    decreases s.len(),
{
    if s.len() == 0 {
        0
    } else {
        count_char(s.drop_last(), ch) + if s.last() == ch {
            1nat
        } else {
            0nat
        }
    }
}

/// A character occurs no more often than `s` is long.
pub proof fn lemma_count_char_bound(s: Seq<char>, ch: char)
    ensures
        count_char(s, ch) <= s.len(),
    decreases s.len(),
{
    if s.len() > 0 {
        lemma_count_char_bound(s.drop_last(), ch);
    }
}

/// Counts the occurrences of `ch` in `s`.
pub fn count_chars(s: &[char], ch: char) -> (n: usize)
    ensures
        n == count_char(s@, ch),
{
    let mut n: usize = 0;
    let mut i: usize = 0;
    while i < s.len()
        invariant
            i <= s@.len(),
            n == count_char(s@.subrange(0, i as int), ch),
            n <= i,
        decreases s@.len() - i,
    {
        assert(s@.subrange(0, i + 1).drop_last() =~= s@.subrange(0, i as int));
        if s[i] == ch {
            n += 1;
        }
        i += 1;
    }
    assert(s@.subrange(0, i as int) =~= s@);
    n
}

/// The position of the first `ch` in `s`.
pub open spec fn find_char(s: Seq<char>, ch: char) -> Option<int>
    decreases s.len(),
{
    if s.len() == 0 {
        None
    } else if s[0] == ch {
        Some(0)
    } else {
        match find_char(s.drop_first(), ch) {
            Some(i) => Some(i + 1),
            None => None,
        }
    }
}

/// Finds the first `ch` in `s`.
pub fn find_first(s: &[char], ch: char) -> (r: Option<usize>)
    ensures
        r is Some <==> find_char(s@, ch) is Some,
        r matches Some(k) ==> find_char(s@, ch) == Some(k as int),
{
    let mut i: usize = 0;
    assert(s@.subrange(0, s@.len() as int) =~= s@);
    while i < s.len()
        invariant
            i <= s@.len(),
            forall|j: int| 0 <= j < i ==> s@[j] != ch,
            find_char(s@, ch) == match find_char(s@.subrange(i as int, s@.len() as int), ch) {
                Some(k) => Some(k + i),
                None => None,
            },
        decreases s@.len() - i,
    {
        let ghost rest = s@.subrange(i as int, s@.len() as int);
        if s[i] == ch {
            assert(rest[0] == ch);
            return Some(i);
        }
        assert(rest.drop_first() =~= s@.subrange(i + 1, s@.len() as int));
        i += 1;
    }
    None
}

} // verus!
