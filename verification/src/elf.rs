use vstd::prelude::*;
use crate::le::{le16, le32, le64, rd_u16, rd_u32, rd_u64};

verus! {

/// Size of an ELF64 program header entry.
pub const PH_ENTRY_SIZE: u64 = 56;

/// Size of a page.
pub const PAGE_SIZE: u64 = 0x1000;

/// Why an ELF image could not be loaded.
#[derive(Debug, Clone, Copy, PartialEq, Eq, Structural)]
pub enum ElfError {
    TooSmall,
    BadMagic,
    Not64Bit,
    NotExecutable,
    NotX86_64,
    NoProgramHeaders,
    BadProgramHeaderSize,
    ProgramHeaderOutOfBounds,
    OutOfMemory,
    MapFailed,
}

impl ElfError {
    /// The loader's message for this error.
    pub fn message(&self) -> (r: &'static str)
        ensures
            r@ == match *self {
                ElfError::TooSmall => "elf: file too small"@,
                ElfError::BadMagic => "elf: bad magic"@,
                ElfError::Not64Bit => "elf: not 64-bit"@,
                ElfError::NotExecutable => "elf: not ET_EXEC"@,
                ElfError::NotX86_64 => "elf: not x86_64"@,
                ElfError::NoProgramHeaders => "elf: no program headers"@,
                ElfError::BadProgramHeaderSize => "elf: unexpected program header size"@,
                ElfError::ProgramHeaderOutOfBounds => "elf: program header out of bounds"@,
                ElfError::OutOfMemory => "elf: out of memory"@,
                ElfError::MapFailed => "elf: map failed"@,
            },
    {
        match self {
            ElfError::TooSmall => "elf: file too small",
            ElfError::BadMagic => "elf: bad magic",
            ElfError::Not64Bit => "elf: not 64-bit",
            ElfError::NotExecutable => "elf: not ET_EXEC",
            ElfError::NotX86_64 => "elf: not x86_64",
            ElfError::NoProgramHeaders => "elf: no program headers",
            ElfError::BadProgramHeaderSize => "elf: unexpected program header size",
            ElfError::ProgramHeaderOutOfBounds => "elf: program header out of bounds",
            ElfError::OutOfMemory => "elf: out of memory",
            ElfError::MapFailed => "elf: map failed",
        }
    }
}

/// What the loader needs from the ELF file header.
#[derive(Debug, Clone, Copy, PartialEq, Eq, Structural)]
pub struct ElfHeader {
    /// The entry point.
    pub entry: u64,
    /// File offset of the program header table.
    pub phoff: u64,
    /// Number of program headers.
    pub phnum: u16,
}

/// The checks of the ELF file header, in the loader's order, and the
/// fields it then uses.
pub open spec fn spec_parse_elf_header(d: Seq<u8>) -> Result<ElfHeader, ElfError> {
    if d.len() < 64 {
        Err(ElfError::TooSmall)
    } else if !(d[0] == 0x7F && d[1] == 0x45 && d[2] == 0x4C && d[3] == 0x46) {
        Err(ElfError::BadMagic)
    } else if d[4] != 2 {
        Err(ElfError::Not64Bit)
    } else if le16(d, 16) != 2 {
        Err(ElfError::NotExecutable)
    } else if le16(d, 18) != 0x3E {
        Err(ElfError::NotX86_64)
    } else if le16(d, 56) == 0 {
        Err(ElfError::NoProgramHeaders)
    } else if le16(d, 54) != 56 {
        Err(ElfError::BadProgramHeaderSize)
    } else {
        Ok(ElfHeader { entry: le64(d, 24), phoff: le64(d, 32), phnum: le16(d, 56) })
    }
}

/// Checks the ELF file header of `data`.
pub fn parse_elf_header(data: &[u8]) -> (r: Result<ElfHeader, ElfError>)
    ensures
        r == spec_parse_elf_header(data@),
{
    if data.len() < 64 {
        return Err(ElfError::TooSmall);
    }
    if !(data[0] == 0x7F && data[1] == 0x45 && data[2] == 0x4C && data[3] == 0x46) {
        return Err(ElfError::BadMagic);
    }
    if data[4] != 2 {
        return Err(ElfError::Not64Bit);
    }
    let e_type = rd_u16(data, 16);
    if e_type != 2 {
        return Err(ElfError::NotExecutable);
    }
    let e_machine = rd_u16(data, 18);
    if e_machine != 0x3E {
        return Err(ElfError::NotX86_64);
    }
    let entry = rd_u64(data, 24);
    let phoff = rd_u64(data, 32);
    let phentsize = rd_u16(data, 54);
    let phnum = rd_u16(data, 56);
    if phnum == 0 {
        return Err(ElfError::NoProgramHeaders);
    }
    if phentsize != 56 {
        return Err(ElfError::BadProgramHeaderSize);
    }
    Ok(ElfHeader { entry, phoff, phnum })
}

/// A loadable segment: where its bytes are in the file and where it goes
/// in memory.
#[derive(Debug, Clone, Copy, PartialEq, Eq, Structural)]
pub struct LoadSegment {
    pub offset: u64,
    pub vaddr: u64,
    pub filesz: u64,
    pub memsz: u64,
}

/// Where program header `i` starts, as an unbounded number.
pub open spec fn ph_base(phoff: u64, i: u16) -> int {
    phoff + i * 56
}

/// What program header `i` holds for the loader: an error when it lies
/// past the end of the file, nothing when it is not a non-empty PT_LOAD
/// segment, else the segment.
pub open spec fn spec_program_header(d: Seq<u8>, phoff: u64, i: u16) -> Result<
    Option<LoadSegment>,
    ElfError,
> {
    let b = ph_base(phoff, i);
    if b + 56 > d.len() {
        Err(ElfError::ProgramHeaderOutOfBounds)
    } else if le32(d, b) != 1 {
        Ok(None)
    } else if le64(d, b + 40) == 0 {
        Ok(None)
    } else {
        Ok(
            Some(
                LoadSegment {
                    offset: le64(d, b + 8),
                    vaddr: le64(d, b + 16),
                    filesz: le64(d, b + 32),
                    memsz: le64(d, b + 40),
                },
            ),
        )
    }
}

/// Whether the offset of program header `i` is computed without overflow.
pub fn program_header_offset_fits(phoff: u64, i: u16) -> (b: bool)
    ensures
        b == (ph_base(phoff, i) + 56 <= u64::MAX),
{
    phoff <= 0xFFFF_FFFF_FFFF_FFFFu64 - 56 - (i as u64) * 56
}

/// Reads program header `i` of the table at `phoff`.
pub fn program_header(data: &[u8], phoff: u64, i: u16) -> (r: Result<Option<LoadSegment>, ElfError>)
    requires
        ph_base(phoff, i) + 56 <= u64::MAX,
    ensures
        r == spec_program_header(data@, phoff, i),
{
    let ph_base = phoff + (i as u64) * 56;
    if ph_base + 56 > data.len() as u64 {
        return Err(ElfError::ProgramHeaderOutOfBounds);
    }
    let base = ph_base as usize;
    let p_type = rd_u32(data, base);
    if p_type != 1 {
        return Ok(None);
    }
    let p_offset = rd_u64(data, base + 8);
    let p_vaddr = rd_u64(data, base + 16);
    let p_filesz = rd_u64(data, base + 32);
    let p_memsz = rd_u64(data, base + 40);
    if p_memsz == 0 {
        return Ok(None);
    }
    Ok(Some(LoadSegment { offset: p_offset, vaddr: p_vaddr, filesz: p_filesz, memsz: p_memsz }))
}

/// `addr` is a canonical x86_64 virtual address: bits 48..64 repeat bit 47.
pub open spec fn is_canonical(addr: u64) -> bool {
    addr < 0x0000_8000_0000_0000 || addr >= 0xFFFF_8000_0000_0000
}

/// Whether `addr` is a canonical virtual address.
pub fn canonical(addr: u64) -> (b: bool)
    ensures
        b == is_canonical(addr),
{
    addr < 0x0000_8000_0000_0000 || addr >= 0xFFFF_8000_0000_0000
}

/// The start of the page that holds `addr`.
pub open spec fn page_of(addr: u64) -> u64 {
    (addr - addr % PAGE_SIZE) as u64
}

/// The segment's bytes lie at canonical addresses that can be computed.
pub open spec fn segment_addressable(seg: LoadSegment) -> bool {
    &&& seg.memsz > 0
    &&& seg.vaddr + seg.memsz - 1 <= u64::MAX
    &&& is_canonical(seg.vaddr)
    &&& is_canonical((seg.vaddr + seg.memsz - 1) as u64)
}

/// Whether the loader can compute the segment's page range.
pub fn segment_pages_addressable(seg: &LoadSegment) -> (b: bool)
    ensures
        b == segment_addressable(*seg),
{
    seg.memsz > 0 && seg.vaddr <= 0xFFFF_FFFF_FFFF_FFFFu64 - (seg.memsz - 1) && canonical(seg.vaddr)
        && canonical(seg.vaddr + (seg.memsz - 1))
}

/// The first and the last page that the segment occupies.
pub fn segment_pages(seg: &LoadSegment) -> (r: (u64, u64))
    requires
        segment_addressable(*seg),
    ensures
        r.0 == page_of(seg.vaddr),
        r.1 == page_of((seg.vaddr + seg.memsz - 1) as u64),
        r.0 <= r.1,
        r.0 % PAGE_SIZE == 0,
        r.1 % PAGE_SIZE == 0,
{
    let last = seg.vaddr + (seg.memsz - 1);
    (seg.vaddr - seg.vaddr % PAGE_SIZE, last - last % PAGE_SIZE)
}

/// How many bytes of the segment come from the file: its file size, cut
/// at the end of the file.
pub fn segment_copy_len(seg: &LoadSegment, data_len: usize) -> (n: u64)
    requires
        seg.offset <= data_len,
    ensures
        n == (if seg.filesz < data_len - seg.offset {
            seg.filesz as int
        } else {
            data_len - seg.offset
        }),
{
    let avail = data_len as u64 - seg.offset;
    if seg.filesz < avail {
        seg.filesz
    } else {
        avail
    }
}

/// The pages the loader maps cover the segment: the first page starts at
/// or before its first byte, and the last page ends after its last byte.
pub proof fn law_segment_pages_cover(seg: LoadSegment)
    requires
        segment_addressable(seg),
    ensures
        page_of(seg.vaddr) <= seg.vaddr < page_of(seg.vaddr) + PAGE_SIZE,
        page_of((seg.vaddr + seg.memsz - 1) as u64) <= seg.vaddr + seg.memsz - 1 < page_of(
            (seg.vaddr + seg.memsz - 1) as u64,
        ) + PAGE_SIZE,
        page_of(seg.vaddr) <= page_of((seg.vaddr + seg.memsz - 1) as u64),
{
}

} // verus!
