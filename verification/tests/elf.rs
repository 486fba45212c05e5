use ros_kernel::elf::{
    canonical, parse_elf_header, program_header, program_header_offset_fits, segment_copy_len,
    segment_pages, segment_pages_addressable, ElfError, ElfHeader, LoadSegment,
};

fn put16(b: &mut [u8], off: usize, v: u16) {
    b[off..off + 2].copy_from_slice(&v.to_le_bytes());
}

fn put32(b: &mut [u8], off: usize, v: u32) {
    b[off..off + 4].copy_from_slice(&v.to_le_bytes());
}

fn put64(b: &mut [u8], off: usize, v: u64) {
    b[off..off + 8].copy_from_slice(&v.to_le_bytes());
}

/// An x86_64 executable with two program headers: a note and a load
/// segment of 0x30 file bytes and 0x2000 memory bytes at 0x40_1010.
fn image() -> Vec<u8> {
    let mut b = vec![0u8; 64 + 2 * 56 + 0x30];
    b[0..4].copy_from_slice(&[0x7F, b'E', b'L', b'F']);
    b[4] = 2;
    put16(&mut b, 16, 2);
    put16(&mut b, 18, 0x3E);
    put64(&mut b, 24, 0x40_1010);
    put64(&mut b, 32, 64);
    put16(&mut b, 54, 56);
    put16(&mut b, 56, 2);
    let p0 = 64;
    put32(&mut b, p0, 4);
    let p1 = 64 + 56;
    put32(&mut b, p1, 1);
    put64(&mut b, p1 + 8, 176);
    put64(&mut b, p1 + 16, 0x40_1010);
    put64(&mut b, p1 + 32, 0x30);
    put64(&mut b, p1 + 40, 0x2000);
    b
}

#[test]
fn elf_header_fields() {
    let b = image();
    assert_eq!(parse_elf_header(&b), Ok(ElfHeader { entry: 0x40_1010, phoff: 64, phnum: 2 }));
}

#[test]
fn elf_header_errors_in_order() {
    assert_eq!(parse_elf_header(&[0u8; 63]), Err(ElfError::TooSmall));
    let mut b = image();
    b[1] = b'X';
    assert_eq!(parse_elf_header(&b), Err(ElfError::BadMagic));
    let mut b = image();
    b[4] = 1;
    assert_eq!(parse_elf_header(&b), Err(ElfError::Not64Bit));
    let mut b = image();
    put16(&mut b, 16, 3);
    assert_eq!(parse_elf_header(&b), Err(ElfError::NotExecutable));
    let mut b = image();
    put16(&mut b, 18, 0x28);
    assert_eq!(parse_elf_header(&b), Err(ElfError::NotX86_64));
    let mut b = image();
    put16(&mut b, 56, 0);
    put16(&mut b, 54, 0);
    assert_eq!(parse_elf_header(&b), Err(ElfError::NoProgramHeaders));
    let mut b = image();
    put16(&mut b, 54, 64);
    assert_eq!(parse_elf_header(&b), Err(ElfError::BadProgramHeaderSize));
    assert_eq!(ElfError::NotExecutable.message(), "elf: not ET_EXEC");
    assert_eq!(ElfError::BadProgramHeaderSize.message(), "elf: unexpected program header size");
}

#[test]
fn elf_program_headers() {
    let b = image();
    assert!(program_header_offset_fits(64, 1));
    assert!(!program_header_offset_fits(u64::MAX - 50, 0));
    assert_eq!(program_header(&b, 64, 0), Ok(None));
    let seg = program_header(&b, 64, 1).unwrap().unwrap();
    assert_eq!(seg, LoadSegment { offset: 176, vaddr: 0x40_1010, filesz: 0x30, memsz: 0x2000 });
    assert_eq!(program_header(&b, 64, 2), Err(ElfError::ProgramHeaderOutOfBounds));
    let mut b2 = image();
    put64(&mut b2, 64 + 56 + 40, 0);
    assert_eq!(program_header(&b2, 64, 1), Ok(None));
}

#[test]
fn elf_segment_pages_and_copy() {
    let b = image();
    let seg = program_header(&b, 64, 1).unwrap().unwrap();
    assert!(segment_pages_addressable(&seg));
    assert_eq!(segment_pages(&seg), (0x40_1000, 0x40_3000));
    assert_eq!(segment_copy_len(&seg, b.len()), 0x30);
    assert_eq!(segment_copy_len(&seg, 180), 4);
    let one = LoadSegment { offset: 0, vaddr: 0x1000, filesz: 0, memsz: 1 };
    assert_eq!(segment_pages(&one), (0x1000, 0x1000));
}

#[test]
fn elf_non_canonical_segments_are_refused() {
    assert!(canonical(0x0000_7FFF_FFFF_FFFF));
    assert!(!canonical(0x0000_8000_0000_0000));
    assert!(canonical(0xFFFF_8000_0000_0000));
    let seg = LoadSegment { offset: 0, vaddr: 0x0000_7FFF_FFFF_F000, filesz: 0, memsz: 0x2000 };
    assert!(!segment_pages_addressable(&seg));
    let wrap = LoadSegment { offset: 0, vaddr: u64::MAX, filesz: 0, memsz: 2 };
    assert!(!segment_pages_addressable(&wrap));
    let empty = LoadSegment { offset: 0, vaddr: 0x1000, filesz: 0, memsz: 0 };
    assert!(!segment_pages_addressable(&empty));
}
