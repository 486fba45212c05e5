use vstd::prelude::*;
use vstd::utf8::*;
use vstd::string::StringSliceAdditionalSpecFns;
use crate::text::utf8_to_string;

verus! {

/// Size of a newc CPIO header.
pub const CPIO_HEADER_SIZE: usize = 110;

/// Why an archive could not be read.
#[derive(Debug, Clone, Copy, PartialEq, Eq, Structural)]
pub enum CpioError {
    BadMagic,
    NameOutOfBounds,
    InvalidUtf8,
    DataOutOfBounds,
}

impl CpioError {
    /// The reader's message for this error.
    pub fn message(&self) -> (r: &'static str)
        ensures
            r@ == match *self {
                CpioError::BadMagic => "bad CPIO magic"@,
                CpioError::NameOutOfBounds => "name out of bounds"@,
                CpioError::InvalidUtf8 => "invalid UTF-8"@,
                CpioError::DataOutOfBounds => "file data out of bounds"@,
            },
    {
        match self {
            CpioError::BadMagic => "bad CPIO magic",
            CpioError::NameOutOfBounds => "name out of bounds",
            CpioError::InvalidUtf8 => "invalid UTF-8",
            CpioError::DataOutOfBounds => "file data out of bounds",
        }
    }
}

// ---------------------------------------------------------------- hex fields

/// `b` is an ASCII hexadecimal digit.
pub open spec fn is_hex_digit(b: u8) -> bool {
    (0x30 <= b <= 0x39) || (0x41 <= b <= 0x46) || (0x61 <= b <= 0x66)
}

/// The value of the hexadecimal digit `b`.
pub open spec fn hex_digit_value(b: u8) -> int {
    if 0x30 <= b <= 0x39 {
        b - 0x30
    } else if 0x41 <= b <= 0x46 {
        b - 0x41 + 10
    } else {
        b - 0x61 + 10
    }
}

/// Every byte of `s` is a hexadecimal digit.
pub open spec fn all_hex(s: Seq<u8>) -> bool {
    forall|i: int| 0 <= i < s.len() ==> is_hex_digit(#[trigger] s[i])
}

/// The number the hexadecimal digits `s` write.
pub open spec fn hex_value(s: Seq<u8>) -> nat
    decreases s.len(),
{
    if s.len() == 0 {
        0
    } else {
        (hex_value(s.drop_last()) * 16 + hex_digit_value(s.last())) as nat
    }
}

/// The digits `u64::from_str_radix(_, 16)` reads: all of `s`, or all but a
/// leading `+` when more follows.
pub open spec fn hex_digits(s: Seq<u8>) -> Seq<u8> {
    if s.len() >= 2 && s[0] == 0x2B {
        s.drop_first()
    } else {
        s
    }
}

/// A header field's value: the hexadecimal number it writes, or 0 when it
/// is no hexadecimal number that fits a `u64`.
pub open spec fn spec_parse_hex(s: Seq<u8>) -> u64 {
    let d = hex_digits(s);
    if d.len() > 0 && all_hex(d) && hex_value(d) <= u64::MAX {
        hex_value(d) as u64
    } else {
        0
    }
}

/// 16 to the power `n`.
pub open spec fn pow16(n: nat) -> nat
    decreases n,
{
    if n == 0 {
        1
    } else {
        16 * pow16((n - 1) as nat)
    }
}

/// A number written with `n` hexadecimal digits is below `16^n`.
pub proof fn lemma_hex_value_bound(s: Seq<u8>)
    requires
        all_hex(s),
    ensures
        hex_value(s) < pow16(s.len()),
    decreases s.len(),
{
    if s.len() > 0 {
        let p = s.drop_last();
        assert(all_hex(p)) by {
            assert forall|i: int| 0 <= i < p.len() implies is_hex_digit(#[trigger] p[i]) by {
                assert(p[i] == s[i]);
            }
        }
        lemma_hex_value_bound(p);
        assert(is_hex_digit(s[s.len() - 1]));
        assert(hex_value(p) * 16 + hex_digit_value(s.last()) < pow16(p.len()) * 16) by (
        nonlinear_arith)
            requires
                hex_value(p) < pow16(p.len()),
                0 <= hex_digit_value(s.last()) < 16,
        ;
    }
}

/// Appending digits never makes a number smaller.
proof fn lemma_hex_value_prefix(s: Seq<u8>, k: int)
    requires
        0 <= k <= s.len(),
        all_hex(s),
    ensures
        hex_value(s.subrange(0, k)) <= hex_value(s),
    decreases s.len() - k,
{
    if k < s.len() {
        lemma_hex_value_prefix(s, k + 1);
        let a = s.subrange(0, k);
        let b = s.subrange(0, k + 1);
        assert(b.drop_last() =~= a);
        assert(is_hex_digit(s[k]));
        assert(b.last() == s[k]);
        assert(hex_value(b) == hex_value(a) * 16 + hex_digit_value(b.last()));
        assert(hex_value(b) >= hex_value(a)) by (nonlinear_arith)
            requires
                hex_value(b) == hex_value(a) * 16 + hex_digit_value(b.last()),
                hex_digit_value(b.last()) >= 0,
        ;
    } else {
        assert(s.subrange(0, k) =~= s);
    }
}

/// Reads a hexadecimal header field; a field that is no number reads as 0.
pub fn parse_hex(buf: &[u8]) -> (v: u64)
    ensures
        v == spec_parse_hex(buf@),
{
    let len = buf.len();
    let mut start: usize = 0;
    if len >= 2 && buf[0] == 0x2B {
        start = 1;
    }
    let ghost d = hex_digits(buf@);
    assert(d =~= buf@.subrange(start as int, len as int));
    if start == len {
        return 0;
    }
    let mut acc: u64 = 0;
    let mut i: usize = start;
    assert(d.subrange(0, 0) =~= Seq::<u8>::empty());
    while i < len
        invariant
            start <= i <= len,
            len == buf@.len(),
            d == buf@.subrange(start as int, len as int),
            d == hex_digits(buf@),
            acc == hex_value(d.subrange(0, i - start)),
            all_hex(d.subrange(0, i - start)),
        decreases len - i,
    {
        let b = buf[i];
        assert(d[i - start] == b);
        let digit: u64 = if 0x30 <= b && b <= 0x39 {
            (b - 0x30) as u64
        } else if 0x41 <= b && b <= 0x46 {
            (b - 0x41 + 10) as u64
        } else if 0x61 <= b && b <= 0x66 {
            (b - 0x61 + 10) as u64
        } else {
            assert(!is_hex_digit(d[i - start]));
            assert(!all_hex(d));
            return 0;
        };
        let ghost p = d.subrange(0, i - start);
        let ghost q = d.subrange(0, i + 1 - start);
        assert(q.drop_last() =~= p);
        assert(q.last() == b);
        assert(all_hex(q)) by {
            assert forall|j: int| 0 <= j < q.len() implies is_hex_digit(#[trigger] q[j]) by {
                if j < p.len() {
                    assert(q[j] == p[j]);
                }
            }
        }
        assert(hex_digit_value(b) == digit);
        assert(hex_value(q) == hex_value(p) * 16 + hex_digit_value(b));
        if acc > (0xFFFF_FFFF_FFFF_FFFFu64 - digit) / 16 {
            proof {
                assert(hex_value(q) > u64::MAX) by (nonlinear_arith)
                    requires
                        acc > (0xFFFF_FFFF_FFFF_FFFFu64 - digit) / 16,
                        hex_value(q) == acc * 16 + digit,
                        digit < 16,
                ;
                if all_hex(d) {
                    lemma_hex_value_prefix(d, i + 1 - start);
                }
            }
            return 0;
        }
        acc = acc * 16 + digit;
        i += 1;
    }
    assert(d.subrange(0, len - start) =~= d);
    acc
}

/// `n` rounded up to a multiple of 4.
pub open spec fn spec_align4(n: int) -> int {
    ((n + 3) / 4) * 4
}

/// Rounds `n` up to a multiple of 4.
pub fn align4(n: usize) -> (r: usize)
    requires
        n + 3 <= usize::MAX,
    ensures
        r == spec_align4(n as int),
{
    let m = n + 3;
    assert(m & !3usize == m - m % 4) by (bit_vector);
    m & !3usize
}

// ---------------------------------------------------------------- archive

/// A file of the archive: its path and its contents.
pub type FileView = (Seq<char>, Seq<u8>);

/// What reading an archive comes to.
pub enum CpioOutcome {
    /// The reader panics on a malformed name field (a name size of 0).
    Panics,
    /// The reader returns this error.
    Failed(CpioError),
    /// The reader returns these files, in archive order.
    Files(Seq<FileView>),
}

/// The bytes "070701".
pub open spec fn newc_magic() -> Seq<u8> {
    seq![0x30u8, 0x37u8, 0x30u8, 0x37u8, 0x30u8, 0x31u8]
}

/// The bytes "TRAILER!!!".
pub open spec fn trailer_name() -> Seq<u8> {
    seq![0x54u8, 0x52u8, 0x41u8, 0x49u8, 0x4Cu8, 0x45u8, 0x52u8, 0x21u8, 0x21u8, 0x21u8]
}

/// `files` followed by what the rest of the archive comes to.
pub open spec fn prepend_files(files: Seq<FileView>, rest: CpioOutcome) -> CpioOutcome {
    match rest {
        CpioOutcome::Files(r) => CpioOutcome::Files(files + r),
        other => other,
    }
}

/// What reading the archive `data` from the header at `off` comes to.
pub open spec fn cpio_from(data: Seq<u8>, off: nat) -> CpioOutcome
    decreases data.len() - off,
{
    if off + 110 > data.len() {
        CpioOutcome::Files(Seq::empty())
    } else {
        let hdr = data.subrange(off as int, off + 110int);
        let namesize = spec_parse_hex(hdr.subrange(94, 102)) as int;
        let filesize = spec_parse_hex(hdr.subrange(54, 62)) as int;
        let name_start = off + 110int;
        let name_end = name_start + namesize;
        if hdr.subrange(0, 6) != newc_magic() {
            CpioOutcome::Failed(CpioError::BadMagic)
        } else if name_end > data.len() {
            CpioOutcome::Failed(CpioError::NameOutOfBounds)
        } else if namesize == 0 {
            CpioOutcome::Panics
        } else {
            let name = data.subrange(name_start, name_end - 1);
            if !valid_utf8(name) {
                CpioOutcome::Failed(CpioError::InvalidUtf8)
            } else if name == trailer_name() {
                CpioOutcome::Files(Seq::empty())
            } else {
                let data_start = spec_align4(name_end);
                let data_end = spec_align4(data_start + filesize);
                if data_end > data.len() {
                    CpioOutcome::Failed(CpioError::DataOutOfBounds)
                } else {
                    prepend_files(
                        seq![(decode_utf8(name), data.subrange(data_start, data_start + filesize))],
                        cpio_from(data, data_end as nat),
                    )
                }
            }
        }
    }
}

/// What reading the whole archive comes to.
pub open spec fn spec_extract(data: Seq<u8>) -> CpioOutcome {
    cpio_from(data, 0)
}

proof fn lemma_prepend_assoc(a: Seq<FileView>, b: Seq<FileView>, o: CpioOutcome)
    ensures
        prepend_files(a, prepend_files(b, o)) == prepend_files(a + b, o),
{
    match o {
        CpioOutcome::Files(r) => {
            assert(a + (b + r) =~= (a + b) + r);
        },
        _ => {},
    }
}

proof fn lemma_prepend_empty(o: CpioOutcome)
    ensures
        prepend_files(Seq::empty(), o) == o,
{
    match o {
        CpioOutcome::Files(r) => {
            assert(Seq::<FileView>::empty() + r =~= r);
        },
        _ => {},
    }
}

/// The files of an initial RAM filesystem.
pub struct InitRamFs {
    files: Vec<(String, Vec<u8>)>,
}

/// The views of a list of files.
pub open spec fn files_view(v: Seq<(String, Vec<u8>)>) -> Seq<FileView> {
    v.map_values(|f: (String, Vec<u8>)| (f.0@, f.1@))
}

/// The position of the first file whose path is the UTF-8 string `name`,
/// from `i` on.
pub open spec fn first_file(files: Seq<FileView>, name: Seq<u8>, i: int) -> Option<int>
    decreases files.len() - i,
{
    if i < 0 || i >= files.len() {
        None
    } else if encode_utf8(files[i].0) == name {
        Some(i)
    } else {
        first_file(files, name, i + 1)
    }
}

/// A path without its leading `/`, if it has one.
pub open spec fn normalized_path(p: Seq<u8>) -> Seq<u8> {
    if p.len() > 0 && p[0] == 0x2F {
        p.drop_first()
    } else {
        p
    }
}

impl InitRamFs {
    /// The files, in archive order.
    pub closed spec fn view(&self) -> Seq<FileView> {
        files_view(self.files@)
    }

    /// Number of files.
    pub fn file_count(&self) -> (n: usize)
        ensures
            n == self@.len(),
    {
        self.files.len()
    }

    /// The contents of the first file whose path is `path`, with or
    /// without a leading `/`.
    pub fn lookup(&self, path: &str) -> (r: Option<&[u8]>)
        ensures
            match first_file(self@, normalized_path(path.spec_bytes()), 0) {
                Some(i) => r matches Some(d) && d@ == self@[i].1,
                None => r is None,
            },
    {
        let bytes = path.as_bytes();
        let normalized: &[u8] = if bytes.len() > 0 && bytes[0] == 0x2F {
            &bytes[1..bytes.len()]
        } else {
            bytes
        };
        assert(normalized@ =~= normalized_path(path.spec_bytes()));
        let ghost name = normalized@;
        let mut i: usize = 0;
        while i < self.files.len()
            invariant
                i <= self.files@.len(),
                name == normalized_path(path.spec_bytes()),
                normalized@ == name,
                first_file(self@, name, 0) == first_file(self@, name, i as int),
            decreases self.files@.len() - i,
        {
            let p = self.files[i].0.as_str().as_bytes();
            assert(self@[i as int].0 == self.files@[i as int].0@);
            if crate::fat32::bytes_eq(p, normalized) {
                return Some(self.files[i].1.as_slice());
            }
            i += 1;
        }
        None
    }
}

/// Reads a newc CPIO archive; `None` where the reader would panic (a
/// header with a name size of 0).
pub fn try_extract(data: &[u8]) -> (r: Option<Result<InitRamFs, CpioError>>)
    requires
        data@.len() <= isize::MAX,
    ensures
        match spec_extract(data@) {
            CpioOutcome::Panics => r is None,
            CpioOutcome::Failed(e) => r == Some(Err::<InitRamFs, CpioError>(e)),
            CpioOutcome::Files(f) => r matches Some(Ok(fs)) && fs@ == f,
        },
{
    let mut files: Vec<(String, Vec<u8>)> = Vec::new();
    let mut off: usize = 0;
    let len = data.len();
    proof {
        lemma_prepend_empty(cpio_from(data@, 0));
    }
    while off + CPIO_HEADER_SIZE <= len
        invariant
            len == data@.len(),
            len <= isize::MAX,
            off <= len,
            spec_extract(data@) == prepend_files(files_view(files@), cpio_from(data@, off as nat)),
        decreases len - off,
    {
        let hdr = &data[off..off + CPIO_HEADER_SIZE];
        let ghost g = data@.subrange(off as int, off + 110);
        assert(hdr@ == g);
        let namesize = parse_hex(&hdr[94..102]);
        let filesize = parse_hex(&hdr[54..62]);
        assert(hdr@.subrange(94, 102) == g.subrange(94, 102));
        assert(hdr@.subrange(54, 62) == g.subrange(54, 62));
        if !(hdr[0] == 0x30 && hdr[1] == 0x37 && hdr[2] == 0x30 && hdr[3] == 0x37 && hdr[4] == 0x30
            && hdr[5] == 0x31) {
            assert(g.subrange(0, 6) != newc_magic()) by {
                if g.subrange(0, 6) == newc_magic() {
                    assert(g.subrange(0, 6)[0] == g[0]);
                    assert(g.subrange(0, 6)[1] == g[1]);
                    assert(g.subrange(0, 6)[2] == g[2]);
                    assert(g.subrange(0, 6)[3] == g[3]);
                    assert(g.subrange(0, 6)[4] == g[4]);
                    assert(g.subrange(0, 6)[5] == g[5]);
                }
            }
            return Some(Err(CpioError::BadMagic));
        }
        assert(g.subrange(0, 6) =~= newc_magic());
        let name_start = off + CPIO_HEADER_SIZE;
        if namesize > (len - name_start) as u64 {
            return Some(Err(CpioError::NameOutOfBounds));
        }
        let name_end = name_start + namesize as usize;
        if namesize == 0 {
            return None;
        }
        let name_bytes = &data[name_start..name_end - 1];
        let name = match utf8_to_string(name_bytes) {
            Some(s) => s,
            None => {
                return Some(Err(CpioError::InvalidUtf8));
            },
        };
        let is_trailer = name_bytes.len() == 10 && name_bytes[0] == 0x54 && name_bytes[1] == 0x52
            && name_bytes[2] == 0x41 && name_bytes[3] == 0x49 && name_bytes[4] == 0x4C
            && name_bytes[5] == 0x45 && name_bytes[6] == 0x52 && name_bytes[7] == 0x21
            && name_bytes[8] == 0x21 && name_bytes[9] == 0x21;
        if is_trailer {
            assert(name_bytes@ =~= trailer_name());
            assert(files_view(files@) + Seq::<FileView>::empty() =~= files_view(files@));
            return Some(Ok(InitRamFs { files }));
        }
        assert(name_bytes@ != trailer_name()) by {
            if name_bytes@ == trailer_name() {
                assert(name_bytes@[0] == 0x54u8);
                assert(name_bytes@[1] == 0x52u8);
                assert(name_bytes@[2] == 0x41u8);
                assert(name_bytes@[3] == 0x49u8);
                assert(name_bytes@[4] == 0x4Cu8);
                assert(name_bytes@[5] == 0x45u8);
                assert(name_bytes@[6] == 0x52u8);
                assert(name_bytes@[7] == 0x21u8);
                assert(name_bytes@[8] == 0x21u8);
                assert(name_bytes@[9] == 0x21u8);
            }
        }
        let data_start = align4(name_end);
        if filesize > (len - data_start.min(len)) as u64 || data_start > len {
            proof {
                if data_start <= len {
                    assert(spec_align4(data_start + filesize) >= data_start + filesize);
                }
            }
            return Some(Err(CpioError::DataOutOfBounds));
        }
        let content_end = data_start + filesize as usize;
        let data_end = align4(content_end);
        if data_end > len {
            return Some(Err(CpioError::DataOutOfBounds));
        }
        let content = vstd::slice::slice_to_vec(&data[data_start..content_end]);
        let ghost before = files_view(files@);
        let ghost item: FileView = (name@, content@);
        files.push((name, content));
        proof {
            assert(files_view(files@) =~= before + seq![item]);
            lemma_prepend_assoc(before, seq![item], cpio_from(data@, data_end as nat));
        }
        off = data_end;
    }
    proof {
        if off + 110 > len {
            assert(cpio_from(data@, off as nat) == CpioOutcome::Files(Seq::<FileView>::empty()));
        }
        assert(files_view(files@) + Seq::<FileView>::empty() =~= files_view(files@));
    }
    Some(Ok(InitRamFs { files }))
}

/// Reads a newc CPIO archive into an initial RAM filesystem: the files up
/// to the `TRAILER!!!` entry or the end of the data.
pub fn extract(data: &[u8]) -> (r: Result<InitRamFs, CpioError>)
    requires
        data@.len() <= isize::MAX,
        !(spec_extract(data@) is Panics),
    ensures
        match spec_extract(data@) {
            CpioOutcome::Failed(e) => r == Err::<InitRamFs, CpioError>(e),
            CpioOutcome::Files(f) => r matches Ok(fs) && fs@ == f,
            CpioOutcome::Panics => false,
        },
{
    match try_extract(data) {
        Some(r) => r,
        None => Err(CpioError::BadMagic),
    }
}


/// Rounding up to 4 gives the least multiple of 4 that is not below `n`.
pub proof fn law_align4(n: int)
    requires
        n >= 0,
    ensures
        spec_align4(n) % 4 == 0,
        n <= spec_align4(n) < n + 4,
{
}

/// A header field of 8 hexadecimal digits always reads as a number below 2^32.
pub proof fn law_hex_field_bound(s: Seq<u8>)
    requires
        s.len() == 8,
    ensures
        spec_parse_hex(s) < 0x1_0000_0000,
{
    let d = hex_digits(s);
    if d.len() > 0 && all_hex(d) {
        lemma_hex_value_bound(d);
        assert(pow16(d.len()) <= 0x1_0000_0000) by {
            reveal_with_fuel(pow16, 9);
            if d.len() == 7 {
                assert(pow16(7) == 0x1000_0000);
            } else {
                assert(d.len() == 8);
                assert(pow16(8) == 0x1_0000_0000);
            }
        }
    }
}

/// A file is found by its path, with or without a leading `/`: for a path
/// that does not itself begin with `/`, looking up either form finds the
/// first file of that path.
pub proof fn law_lookup_finds_file(files: Seq<FileView>, i: int)
    requires
        0 <= i < files.len(),
        forall|j: int| 0 <= j < i ==> files[j].0 != files[i].0,
        !(encode_utf8(files[i].0).len() > 0 && encode_utf8(files[i].0)[0] == 0x2F),
    ensures
        first_file(files, normalized_path(encode_utf8(files[i].0)), 0) == Some(i),
        first_file(files, normalized_path(seq![0x2Fu8] + encode_utf8(files[i].0)), 0) == Some(i),
{
    let name = encode_utf8(files[i].0);
    assert(normalized_path(name) == name);
    assert((seq![0x2Fu8] + name).drop_first() =~= name);
    lemma_first_file(files, name, i, 0);
}

proof fn lemma_first_file(files: Seq<FileView>, name: Seq<u8>, i: int, k: int)
    requires
        0 <= k <= i < files.len(),
        forall|j: int| 0 <= j < i ==> files[j].0 != files[i].0,
        name == encode_utf8(files[i].0),
    ensures
        first_file(files, name, k) == Some(i),
    decreases i - k,
{
    if k < i {
        if encode_utf8(files[k].0) == name {
            vstd::utf8::encode_utf8_decode_utf8(files[k].0);
            vstd::utf8::encode_utf8_decode_utf8(files[i].0);
            assert(false);
        }
        lemma_first_file(files, name, i, k + 1);
    }
}

} // verus!
