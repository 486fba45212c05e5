use ros_kernel::initramfs::{align4, extract, parse_hex, try_extract, CpioError};

fn header(namesize: usize, filesize: usize) -> Vec<u8> {
    let mut h = Vec::new();
    h.extend_from_slice(b"070701");
    // ino, mode, uid, gid, nlink, mtime
    for _ in 0..6 {
        h.extend_from_slice(b"00000000");
    }
    h.extend_from_slice(format!("{:08X}", filesize).as_bytes());
    // devmajor, devminor, rdevmajor, rdevminor
    for _ in 0..4 {
        h.extend_from_slice(b"00000000");
    }
    h.extend_from_slice(format!("{:08X}", namesize).as_bytes());
    h.extend_from_slice(b"00000000");
    assert_eq!(h.len(), 110);
    h
}

fn pad4(v: &mut Vec<u8>) {
    while v.len() % 4 != 0 {
        v.push(0);
    }
}

fn entry(v: &mut Vec<u8>, name: &str, data: &[u8]) {
    v.extend_from_slice(&header(name.len() + 1, data.len()));
    v.extend_from_slice(name.as_bytes());
    v.push(0);
    pad4(v);
    v.extend_from_slice(data);
    pad4(v);
}

fn archive(files: &[(&str, &[u8])]) -> Vec<u8> {
    let mut v = Vec::new();
    for (n, d) in files {
        entry(&mut v, n, d);
    }
    entry(&mut v, "TRAILER!!!", b"");
    v
}

#[test]
fn parse_hex_reads_fields() {
    assert_eq!(parse_hex(b"0000006E"), 0x6E);
    assert_eq!(parse_hex(b"0000abcd"), 0xABCD);
    assert_eq!(parse_hex(b"FFFFFFFF"), 0xFFFF_FFFF);
    assert_eq!(parse_hex(b"+1F"), 0x1F);
}

#[test]
fn parse_hex_reads_garbage_as_zero() {
    assert_eq!(parse_hex(b"0000zz00"), 0);
    assert_eq!(parse_hex(b""), 0);
    assert_eq!(parse_hex(b"+"), 0);
    assert_eq!(parse_hex(b"-1"), 0);
    assert_eq!(parse_hex(&[0xFF, 0x30]), 0);
    assert_eq!(parse_hex(b"1FFFFFFFFFFFFFFFF"), 0);
    assert_eq!(parse_hex(b"FFFFFFFFFFFFFFFF"), u64::MAX);
}

#[test]
fn align4_rounds_up() {
    assert_eq!(align4(0), 0);
    assert_eq!(align4(1), 4);
    assert_eq!(align4(4), 4);
    assert_eq!(align4(111), 112);
    assert_eq!(align4(113), 116);
}

#[test]
fn extract_reads_files_in_order() {
    let data = archive(&[("init", b"\x7fELF-ish"), ("etc/motd", b"hello\n"), ("empty", b"")]);
    let fs = extract(&data).ok().unwrap();
    assert_eq!(fs.file_count(), 3);
    assert_eq!(fs.lookup("init"), Some(&b"\x7fELF-ish"[..]));
    assert_eq!(fs.lookup("/etc/motd"), Some(&b"hello\n"[..]));
    assert_eq!(fs.lookup("etc/motd"), Some(&b"hello\n"[..]));
    assert_eq!(fs.lookup("empty"), Some(&b""[..]));
    assert_eq!(fs.lookup("missing"), None);
    assert_eq!(fs.lookup("//etc/motd"), None);
}

#[test]
fn extract_lookup_prefers_first_file_of_a_name() {
    let data = archive(&[("a", b"first"), ("a", b"second")]);
    let fs = extract(&data).ok().unwrap();
    assert_eq!(fs.file_count(), 2);
    assert_eq!(fs.lookup("a"), Some(&b"first"[..]));
}

#[test]
fn extract_stops_at_trailer() {
    let mut data = archive(&[("x", b"1")]);
    entry(&mut data, "after", b"ignored");
    let fs = extract(&data).ok().unwrap();
    assert_eq!(fs.file_count(), 1);
    assert_eq!(fs.lookup("after"), None);
}

#[test]
fn extract_without_trailer_reads_to_end() {
    let mut data = Vec::new();
    entry(&mut data, "only", b"data");
    data.extend_from_slice(&[0u8; 20]);
    let fs = extract(&data).ok().unwrap();
    assert_eq!(fs.file_count(), 1);
    assert_eq!(fs.lookup("only"), Some(&b"data"[..]));
}

#[test]
fn extract_empty_archive() {
    let fs = extract(&[]).ok().unwrap();
    assert_eq!(fs.file_count(), 0);
}

#[test]
fn extract_rejects_bad_magic() {
    let mut data = archive(&[("x", b"1")]);
    data[5] = b'2';
    assert_eq!(extract(&data).err(), Some(CpioError::BadMagic));
    assert_eq!(CpioError::BadMagic.message(), "bad CPIO magic");
}

#[test]
fn extract_rejects_name_out_of_bounds() {
    let mut data = header(200, 0);
    data.extend_from_slice(b"short");
    assert_eq!(extract(&data).err(), Some(CpioError::NameOutOfBounds));
}

#[test]
fn extract_rejects_invalid_utf8_name() {
    let mut data = header(3, 0);
    data.extend_from_slice(&[0xC3, 0x28, 0]);
    data.extend_from_slice(&[0u8; 8]);
    assert_eq!(extract(&data).err(), Some(CpioError::InvalidUtf8));
}

#[test]
fn extract_rejects_data_out_of_bounds() {
    let mut data = header(2, 100);
    data.extend_from_slice(b"f\0");
    data.extend_from_slice(b"only a little");
    assert_eq!(extract(&data).err(), Some(CpioError::DataOutOfBounds));
}

#[test]
fn try_extract_reports_zero_name_size() {
    let data = header(0, 0);
    assert!(try_extract(&data).is_none());
}
