use vstd::prelude::*;
use vstd::utf8::*;
use vstd::string::StringSliceAdditionalSpecFns;
use crate::ata::{Drive, SECTOR_SIZE};
use crate::le::{le16, le32, rd_u16, rd_u32};
use crate::text::{chars_of, utf8_to_string, trim_trailing_spaces, spec_trim_trailing_spaces};
use crate::codecheck::chars_eq;

verus! {

/// Partition type of a FAT32 partition (CHS).
pub const FAT32_PTYPE: u8 = 0x0B;

/// Partition type of a FAT32 partition (LBA).
pub const FAT32_LBA_PTYPE: u8 = 0x0C;

/// Directory entry attribute: a directory.
pub const ATTR_DIRECTORY: u8 = 0x10;

/// Directory entry attribute: the volume label.
pub const ATTR_VOLUME_ID: u8 = 0x08;

/// Attribute value of a long-file-name entry.
pub const ATTR_LFN: u8 = 0x0F;

/// FAT values from here up mark the end of a cluster chain.
pub const EOC_MARK: u32 = 0x0FFF_FFF8;

/// Size of one directory record.
pub const DIR_RECORD_SIZE: usize = 32;

/// Why a FAT32 operation failed.
#[derive(Debug, Clone, Copy, PartialEq, Eq, Structural)]
pub enum Fat32Error {
    NoBootSignature,
    BadBpbSignature,
    NoFat32Partition,
    UnsupportedSectorSize,
    InvalidClusterSize,
    BufferTooSmall,
    EmptyPath,
    PathIsDirectory,
    NotADirectory,
    NotFound,
}

impl Fat32Error {
    /// The driver's message for this error.
    pub fn message(&self) -> (r: &'static str)
        ensures
            r@ == match *self {
                Fat32Error::NoBootSignature => "fat32: no boot signature at sector 0"@,
                Fat32Error::BadBpbSignature => "fat32: bad BPB signature in partition"@,
                Fat32Error::NoFat32Partition => "fat32: no FAT32 partition found"@,
                Fat32Error::UnsupportedSectorSize => "fat32: unsupported bytes per sector"@,
                Fat32Error::InvalidClusterSize => "fat32: invalid sectors per cluster"@,
                Fat32Error::BufferTooSmall => "fat32: buffer too small for cluster"@,
                Fat32Error::EmptyPath => "fat32: empty path"@,
                Fat32Error::PathIsDirectory => "fat32: path is a directory, not a file"@,
                Fat32Error::NotADirectory => "fat32: intermediate path component is not a directory"@,
                Fat32Error::NotFound => "fat32: path component not found"@,
            },
    {
        match self {
            Fat32Error::NoBootSignature => "fat32: no boot signature at sector 0",
            Fat32Error::BadBpbSignature => "fat32: bad BPB signature in partition",
            Fat32Error::NoFat32Partition => "fat32: no FAT32 partition found",
            Fat32Error::UnsupportedSectorSize => "fat32: unsupported bytes per sector",
            Fat32Error::InvalidClusterSize => "fat32: invalid sectors per cluster",
            Fat32Error::BufferTooSmall => "fat32: buffer too small for cluster",
            Fat32Error::EmptyPath => "fat32: empty path",
            Fat32Error::PathIsDirectory => "fat32: path is a directory, not a file",
            Fat32Error::NotADirectory => "fat32: intermediate path component is not a directory",
            Fat32Error::NotFound => "fat32: path component not found",
        }
    }
}

/// A directory entry as the driver reports it.
pub struct DirEntry {
    pub name: String,
    pub is_dir: bool,
    pub size: u32,
    pub first_cluster: u32,
}

/// The mathematical value of a `DirEntry`.
pub struct DirEntryView {
    pub name: Seq<char>,
    pub is_dir: bool,
    pub size: u32,
    pub first_cluster: u32,
}

impl View for DirEntry {
    type V = DirEntryView;

    open spec fn view(&self) -> DirEntryView {
        DirEntryView {
            name: self.name@,
            is_dir: self.is_dir,
            size: self.size,
            first_cluster: self.first_cluster,
        }
    }
}

/// The views of a list of entries.
pub open spec fn entries_view(v: Seq<DirEntry>) -> Seq<DirEntryView> {
    v.map_values(|e: DirEntry| e@)
}

/// The volume geometry read from the BIOS parameter block.
#[derive(Clone, Copy)]
pub struct Geometry {
    pub partition_lba: u32,
    pub sectors_per_cluster: u8,
    pub reserved_sectors: u16,
    pub fats: u8,
    pub sectors_per_fat: u32,
    pub root_cluster: u32,
    pub first_data_sector: u32,
}

/// `x` is a power of two.
pub open spec fn is_pow2_u8(x: u8) -> bool {
    x == 1 || x == 2 || x == 4 || x == 8 || x == 16 || x == 32 || x == 64 || x == 128
}

impl Geometry {
    /// The geometry is consistent: the data area starts after the reserved
    /// sectors and the FATs, and a cluster is a power of two of sectors.
    pub open spec fn wf(self) -> bool {
        &&& self.first_data_sector == self.partition_lba + self.reserved_sectors + self.fats
            * self.sectors_per_fat
        &&& is_pow2_u8(self.sectors_per_cluster)
    }

    /// The first sector of `cluster`, as an unbounded number.
    pub open spec fn cluster_lba(self, cluster: u32) -> int {
        self.first_data_sector + (cluster - 2) * self.sectors_per_cluster
    }

    /// `cluster` is a data cluster whose first sector is addressable.
    pub open spec fn cluster_addressable(self, cluster: u32) -> bool {
        2 <= cluster && self.cluster_lba(cluster) <= u32::MAX
    }

    /// Bytes per cluster.
    pub open spec fn cluster_bytes(self) -> nat {
        (self.sectors_per_cluster * 512) as nat
    }

    /// The FAT sector that holds the entry of `cluster`, as an unbounded number.
    pub open spec fn fat_sector(self, cluster: u32) -> int {
        self.partition_lba + self.reserved_sectors + (cluster * 4) / 512
    }

    /// The FAT sector of `cluster` is addressable.
    pub open spec fn fat_addressable(self, cluster: u32) -> bool {
        self.fat_sector(cluster) <= u32::MAX
    }
}

// ---------------------------------------------------------------- boot sector

/// The sector ends with the 0x55 0xAA boot signature.
pub open spec fn has_boot_signature(s: Seq<u8>) -> bool {
    s[510] == 0x55 && s[511] == 0xAA
}

/// The type byte of partition slot `i` of an MBR.
pub open spec fn ptype_at(s: Seq<u8>, i: int) -> u8 {
    s[446 + i * 16 + 4]
}

/// The first FAT32 partition among the MBR slots `i..4`.
pub open spec fn first_fat32_slot(s: Seq<u8>, i: int) -> Option<u32>
    decreases 4 - i,
{
    if i >= 4 {
        None
    } else if ptype_at(s, i) == FAT32_PTYPE || ptype_at(s, i) == FAT32_LBA_PTYPE {
        Some(le32(s, 446 + i * 16 + 8))
    } else {
        first_fat32_slot(s, i + 1)
    }
}

/// Where the BIOS parameter block is, given sector 0: in the first FAT32
/// partition of the MBR (its start LBA), or in sector 0 itself (`None`)
/// when there is none and sector 0 declares 512-byte sectors.
pub open spec fn spec_locate_bpb(s: Seq<u8>) -> Result<Option<u32>, Fat32Error> {
    if !has_boot_signature(s) {
        Err(Fat32Error::NoBootSignature)
    } else {
        match first_fat32_slot(s, 0) {
            Some(lba) => Ok(Some(lba)),
            None => if le16(s, 0x0B) == 512 {
                Ok(None)
            } else {
                Err(Fat32Error::NoFat32Partition)
            },
        }
    }
}

/// Sectors per FAT: the 16-bit field, or the 32-bit one when that is zero.
pub open spec fn bpb_sectors_per_fat(b: Seq<u8>) -> u32 {
    if le16(b, 0x16) != 0 {
        le16(b, 0x16) as u32
    } else {
        le32(b, 0x24)
    }
}

/// The first data sector that a BPB describes, as an unbounded number.
pub open spec fn bpb_first_data_sector(b: Seq<u8>, partition_lba: u32) -> int {
    partition_lba + le16(b, 0x0E) + b[0x10] * bpb_sectors_per_fat(b)
}

/// Parsing this BPB would compute its first data sector, and that fits a `u32`.
pub open spec fn bpb_addressable(b: Seq<u8>, partition_lba: u32) -> bool {
    le16(b, 0x0B) == 512 ==> bpb_first_data_sector(b, partition_lba) <= u32::MAX
}

/// The geometry a BPB describes.
pub open spec fn bpb_geometry(b: Seq<u8>, partition_lba: u32) -> Geometry {
    Geometry {
        partition_lba,
        sectors_per_cluster: b[0x0D],
        reserved_sectors: le16(b, 0x0E),
        fats: b[0x10],
        sectors_per_fat: bpb_sectors_per_fat(b),
        root_cluster: le32(b, 0x2C),
        first_data_sector: bpb_first_data_sector(b, partition_lba) as u32,
    }
}

/// The outcome of parsing a BPB.
pub open spec fn spec_parse_bpb(b: Seq<u8>, partition_lba: u32) -> Result<Geometry, Fat32Error> {
    if le16(b, 0x0B) != 512 {
        Err(Fat32Error::UnsupportedSectorSize)
    } else if !is_pow2_u8(b[0x0D]) {
        Err(Fat32Error::InvalidClusterSize)
    } else {
        Ok(bpb_geometry(b, partition_lba))
    }
}

// ---------------------------------------------------------------- directories

/// Bytes 0..8 of a record: the base name.
pub open spec fn record_name(buf: Seq<u8>, off: int) -> Seq<u8> {
    buf.subrange(off, off + 8)
}

/// Bytes 8..11 of a record: the extension.
pub open spec fn record_ext(buf: Seq<u8>, off: int) -> Seq<u8> {
    buf.subrange(off + 8, off + 11)
}

/// A field of a short name: its bytes without trailing spaces, decoded as
/// UTF-8, or nothing when they are not valid UTF-8.
pub open spec fn name_part(raw: Seq<u8>) -> Seq<char> {
    let t = spec_trim_trailing_spaces(raw);
    if valid_utf8(t) {
        decode_utf8(t)
    } else {
        Seq::empty()
    }
}

/// The display name of an 8.3 entry: `NAME` or `NAME.EXT`.
pub open spec fn spec_parse_name(name: Seq<u8>, ext: Seq<u8>) -> Seq<char> {
    let n = name_part(name);
    let e = name_part(ext);
    if e.len() == 0 {
        n
    } else {
        n + seq!['.'] + e
    }
}

/// The record at `off` is skipped: deleted, a long-name part, or the
/// volume label.
pub open spec fn record_skipped(buf: Seq<u8>, off: int) -> bool {
    buf[off] == 0xE5 || buf[off + 0x0B] == ATTR_LFN || buf[off + 0x0B] & ATTR_VOLUME_ID != 0
}

/// The entry that the record at `off` describes.
pub open spec fn record_entry(buf: Seq<u8>, off: int) -> DirEntryView {
    DirEntryView {
        name: spec_parse_name(record_name(buf, off), record_ext(buf, off)),
        is_dir: buf[off + 0x0B] & ATTR_DIRECTORY != 0,
        size: le32(buf, off + 0x1C),
        first_cluster: (le16(buf, off + 0x14) * 0x1_0000 + le16(buf, off + 0x1A)) as u32,
    }
}

/// The entries of the first `k` records of a cluster, in order.
pub open spec fn records_entries(buf: Seq<u8>, k: nat) -> Seq<DirEntryView>
    decreases k,
{
    if k == 0 {
        Seq::empty()
    } else {
        let prev = records_entries(buf, (k - 1) as nat);
        let off = 32 * (k - 1);
        if record_skipped(buf, off) {
            prev
        } else {
            prev.push(record_entry(buf, off))
        }
    }
}

/// Index of the first end-of-directory record among records `i..n`, or `n`.
pub open spec fn end_record(buf: Seq<u8>, i: nat, n: nat) -> nat
    decreases n - i,
{
    if i >= n {
        n
    } else if buf[32 * i as int] == 0 {
        i
    } else {
        end_record(buf, i + 1, n)
    }
}

/// A cluster's records up to the end marker.
pub open spec fn cluster_entries(buf: Seq<u8>) -> Seq<DirEntryView> {
    records_entries(buf, end_record(buf, 0, buf.len() / 32))
}

/// The cluster holds an end-of-directory record.
pub open spec fn cluster_ends_dir(buf: Seq<u8>) -> bool {
    end_record(buf, 0, buf.len() / 32) < buf.len() / 32
}

// ---------------------------------------------------------------- exec

/// Looks for the first FAT32 partition in the MBR in sector 0.
pub fn find_fat32_partition(sector0: &[u8; 512]) -> (r: Option<u32>)
    ensures
        r == first_fat32_slot(sector0@, 0),
{
    let mut i: usize = 0;
    while i < 4
        invariant
            i <= 4,
            first_fat32_slot(sector0@, 0) == first_fat32_slot(sector0@, i as int),
        decreases 4 - i,
    {
        let off = 446 + i * 16;
        let ptype = sector0[off + 4];
        if ptype == FAT32_PTYPE || ptype == FAT32_LBA_PTYPE {
            return Some(rd_u32(sector0.as_slice(), off + 8));
        }
        i += 1;
    }
    None
}

/// Decides where the BIOS parameter block lies, given sector 0.
pub fn locate_bpb(sector0: &[u8; 512]) -> (r: Result<Option<u32>, Fat32Error>)
    ensures
        r == spec_locate_bpb(sector0@),
{
    if sector0[510] != 0x55 || sector0[511] != 0xAA {
        return Err(Fat32Error::NoBootSignature);
    }
    match find_fat32_partition(sector0) {
        Some(lba) => Ok(Some(lba)),
        None => {
            if rd_u16(sector0.as_slice(), 0x0B) == 512 {
                Ok(None)
            } else {
                Err(Fat32Error::NoFat32Partition)
            }
        },
    }
}

/// Checks the boot signature of a BPB read from a partition.
pub fn check_bpb_signature(bpb: &[u8; 512]) -> (r: Result<(), Fat32Error>)
    ensures
        r is Ok <==> has_boot_signature(bpb@),
        r is Err ==> r == Err::<(), Fat32Error>(Fat32Error::BadBpbSignature),
{
    if bpb[510] != 0x55 || bpb[511] != 0xAA {
        Err(Fat32Error::BadBpbSignature)
    } else {
        Ok(())
    }
}

/// Whether `x` is a power of two.
pub fn u8_is_power_of_two(x: u8) -> (b: bool)
    ensures
        b == is_pow2_u8(x),
{
    x == 1 || x == 2 || x == 4 || x == 8 || x == 16 || x == 32 || x == 64 || x == 128
}

/// Whether parsing `bpb` at `partition_lba` stays within `u32` sector numbers.
pub fn bpb_fits(bpb: &[u8; 512], partition_lba: u32) -> (b: bool)
    ensures
        b == bpb_addressable(bpb@, partition_lba),
{
    let bytes_per_sector = rd_u16(bpb.as_slice(), 0x0B);
    if bytes_per_sector != 512 {
        return true;
    }
    let spf16 = rd_u16(bpb.as_slice(), 0x16);
    let spf: u64 = if spf16 != 0 {
        spf16 as u64
    } else {
        rd_u32(bpb.as_slice(), 0x24) as u64
    };
    let reserved = rd_u16(bpb.as_slice(), 0x0E) as u64;
    let fats = bpb[0x10] as u64;
    assert(fats * spf <= 255 * 0xFFFF_FFFF) by (nonlinear_arith)
        requires
            fats <= 255,
            spf <= 0xFFFF_FFFF,
    ;
    partition_lba as u64 + reserved + fats * spf <= 0xFFFF_FFFF
}

/// Parses a FAT32 BIOS parameter block into the disk's volume geometry,
/// with its start at `partition_lba`.
pub fn parse_geometry(bpb: &[u8; 512], partition_lba: u32) -> (r: Result<Geometry, Fat32Error>)
    requires
        bpb_addressable(bpb@, partition_lba),
    ensures
        r == spec_parse_bpb(bpb@, partition_lba),
        r matches Ok(g) ==> g.wf(),
{
    let bytes_per_sector = rd_u16(bpb.as_slice(), 0x0B);
    if bytes_per_sector != 512 {
        return Err(Fat32Error::UnsupportedSectorSize);
    }
    let sectors_per_cluster = bpb[0x0D];
    let reserved_sectors = rd_u16(bpb.as_slice(), 0x0E);
    let fats = bpb[0x10];
    let sectors_per_fat_16 = rd_u16(bpb.as_slice(), 0x16);
    let sectors_per_fat: u32 = if sectors_per_fat_16 != 0 {
        sectors_per_fat_16 as u32
    } else {
        rd_u32(bpb.as_slice(), 0x24)
    };
    let root_cluster = rd_u32(bpb.as_slice(), 0x2C);
    assert(0 <= (fats as int) * (sectors_per_fat as int)) by (nonlinear_arith);
    let first_data_sector = partition_lba + reserved_sectors as u32 + (fats as u32)
        * sectors_per_fat;
    if !u8_is_power_of_two(sectors_per_cluster) {
        return Err(Fat32Error::InvalidClusterSize);
    }
    Ok(
        Geometry {
            partition_lba,
            sectors_per_cluster,
            reserved_sectors,
            fats,
            sectors_per_fat,
            root_cluster,
            first_data_sector,
        },
    )
}


/// Builds the display name of an 8.3 directory record from its name and
/// extension fields.
pub fn parse_name(name: &[u8], ext: &[u8]) -> (r: String)
    ensures
        r@ == spec_parse_name(name@, ext@),
{
    let nl = trim_trailing_spaces(name);
    let el = trim_trailing_spaces(ext);
    let n = match utf8_to_string(&name[0..nl]) {
        Some(s) => s,
        None => String::new(),
    };
    let e = match utf8_to_string(&ext[0..el]) {
        Some(s) => s,
        None => String::new(),
    };
    if e.as_str().is_empty() {
        n
    } else {
        let mut r = n;
        proof {
            reveal_strlit(".");
        }
        r.append(".");
        r.append(e.as_str());
        r
    }
}

proof fn lemma_entries_view_push(v: Seq<DirEntry>, e: DirEntry)
    ensures
        entries_view(v.push(e)) == entries_view(v).push(e@),
{
    assert(entries_view(v.push(e)) =~= entries_view(v).push(e@));
}

/// Appends to `entries` the entries of one directory cluster `buf`, up to
/// its end-of-directory record, and tells whether that record was met.
pub fn parse_dir_cluster(buf: &[u8], entries: &mut Vec<DirEntry>) -> (ended: bool)
    requires
        buf@.len() % 32 == 0,
    ensures
        entries_view(final(entries)@) == entries_view(old(entries)@) + cluster_entries(buf@),
        ended == cluster_ends_dir(buf@),
{
    let n = buf.len() / DIR_RECORD_SIZE;
    let ghost nn = buf@.len() / 32;
    let mut k: usize = 0;
    assert(entries_view(old(entries)@) + records_entries(buf@, 0) =~= entries_view(old(entries)@));
    while k < n
        invariant
            n == nn,
            buf@.len() == 32 * nn,
            buf@.len() <= usize::MAX,
            k <= n,
            end_record(buf@, 0, nn) == end_record(buf@, k as nat, nn),
            entries_view(entries@) == entries_view(old(entries)@) + records_entries(buf@, k as nat),
        decreases n - k,
    {
        let off = k * DIR_RECORD_SIZE;
        let first = buf[off];
        if first == 0x00 {
            return true;
        }
        let attrs = buf[off + 0x0B];
        let ghost before = entries@;
        if first == 0xE5 || attrs == ATTR_LFN || attrs & ATTR_VOLUME_ID != 0 {
            assert(records_entries(buf@, (k + 1) as nat) == records_entries(buf@, k as nat));
        } else {
            let name = parse_name(&buf[off..off + 8], &buf[off + 8..off + 11]);
            let cluster_hi = rd_u16(buf, off + 0x14);
            let cluster_lo = rd_u16(buf, off + 0x1A);
            let first_cluster = (cluster_hi as u32) * 0x1_0000 + cluster_lo as u32;
            let size = rd_u32(buf, off + 0x1C);
            let e = DirEntry { name, is_dir: attrs & ATTR_DIRECTORY != 0, size, first_cluster };
            assert(e@ == record_entry(buf@, off as int));
            entries.push(e);
            proof {
                lemma_entries_view_push(before, e);
            }
            assert(entries_view(entries@) =~= entries_view(old(entries)@) + records_entries(
                buf@,
                (k + 1) as nat,
            ));
        }
        k += 1;
    }
    false
}

/// Whether a FAT value marks the end of a cluster chain.
pub fn is_eoc(val: u32) -> (b: bool)
    ensures
        b == (val >= EOC_MARK),
{
    val >= EOC_MARK
}

/// The FAT entry stored at byte `off` of a FAT sector: 28 bits.
pub fn fat_entry_from_sector(sector: &[u8; 512], off: usize) -> (v: u32)
    requires
        off + 4 <= 512,
    ensures
        v == le32(sector@, off as int) & 0x0FFF_FFFF,
{
    rd_u32(sector.as_slice(), off) & 0x0FFF_FFFF
}

/// The volume label recorded in a FAT32 BPB: the extended boot signature
/// 0x28 or 0x29 at 0x42, then 11 bytes at 0x47, without trailing spaces,
/// when not empty and valid UTF-8.
pub open spec fn spec_volume_label(bpb: Seq<u8>) -> Option<Seq<char>> {
    let raw = bpb.subrange(0x47, 0x52);
    let t = spec_trim_trailing_spaces(raw);
    if bpb[0x42] != 0x29 && bpb[0x42] != 0x28 {
        None
    } else if t.len() == 0 {
        None
    } else if valid_utf8(t) {
        Some(decode_utf8(t))
    } else {
        None
    }
}

/// Reads the volume label from a BPB sector.
pub fn volume_label_from_bpb(bpb: &[u8; 512]) -> (r: Option<String>)
    ensures
        r is Some <==> spec_volume_label(bpb@) is Some,
        r matches Some(s) ==> spec_volume_label(bpb@) == Some(s@),
{
    let sig = bpb[0x42];
    if sig != 0x29 && sig != 0x28 {
        return None;
    }
    let label_raw = &bpb[0x47..0x52];
    let end = trim_trailing_spaces(label_raw);
    if end == 0 {
        return None;
    }
    utf8_to_string(&label_raw[0..end])
}

/// The outcome of mounting, given sector 0 of the disk and, when sector 0
/// names a FAT32 partition, the first sector of that partition.
pub open spec fn spec_mount(s0: Seq<u8>, part: Option<Seq<u8>>) -> Result<Geometry, Fat32Error> {
    match spec_locate_bpb(s0) {
        Err(e) => Err(e),
        Ok(Some(lba)) => if !has_boot_signature(part.unwrap()) {
            Err(Fat32Error::BadBpbSignature)
        } else {
            spec_parse_bpb(part.unwrap(), lba)
        },
        Ok(None) => spec_parse_bpb(s0, 0),
    }
}

/// The sectors handed to a mount are those it reads: the partition's first
/// sector exactly when sector 0 names a partition.
pub open spec fn mount_inputs(s0: Seq<u8>, part: Option<Seq<u8>>) -> bool {
    (spec_locate_bpb(s0) matches Ok(Some(_))) <==> part is Some
}

/// Mounting these sectors keeps every sector number within `u32`.
pub open spec fn mount_addressable(s0: Seq<u8>, part: Option<Seq<u8>>) -> bool {
    match spec_locate_bpb(s0) {
        Err(_) => true,
        Ok(Some(lba)) => has_boot_signature(part.unwrap()) ==> bpb_addressable(part.unwrap(), lba),
        Ok(None) => bpb_addressable(s0, 0),
    }
}

/// The byte view of an optional sector.
pub open spec fn opt_sector(part: Option<&[u8; 512]>) -> Option<Seq<u8>> {
    match part {
        Some(b) => Some(b@),
        None => None,
    }
}

/// Whether mounting `sector0` and `part` keeps every sector number within `u32`.
pub fn mount_fits(sector0: &[u8; 512], part: Option<&[u8; 512]>) -> (b: bool)
    requires
        mount_inputs(sector0@, opt_sector(part)),
    ensures
        b == mount_addressable(sector0@, opt_sector(part)),
{
    match locate_bpb(sector0) {
        Err(_) => true,
        Ok(Some(lba)) => {
            let bpb = part.unwrap();
            if bpb[510] != 0x55 || bpb[511] != 0xAA {
                true
            } else {
                bpb_fits(bpb, lba)
            }
        },
        Ok(None) => bpb_fits(sector0, 0),
    }
}

/// A mounted FAT32 volume: the drive it lives on and its geometry.
pub struct Fat32 {
    drive: Drive,
    geo: Geometry,
}

impl Fat32 {
    /// The volume's geometry.
    pub closed spec fn spec_geometry(&self) -> Geometry {
        self.geo
    }

    /// The geometry is consistent.
    pub closed spec fn wf(&self) -> bool {
        self.geo.wf()
    }

    /// The drive the volume lives on.
    pub closed spec fn spec_drive(&self) -> &Drive {
        &self.drive
    }

    /// Mounts the volume on `drive` from its BIOS parameter block `bpb`,
    /// found at `partition_lba`.
    pub fn parse_bpb(drive: Drive, bpb: [u8; 512], partition_lba: u32) -> (r: Result<
        Self,
        Fat32Error,
    >)
        requires
            bpb_addressable(bpb@, partition_lba),
        ensures
            match (r, spec_parse_bpb(bpb@, partition_lba)) {
                (Ok(fs), Ok(g)) => fs.spec_geometry() == g && fs.wf() && *fs.spec_drive()
                    == drive,
                (Err(e1), Err(e2)) => e1 == e2,
                _ => false,
            },
    {
        match parse_geometry(&bpb, partition_lba) {
            Ok(geo) => Ok(Fat32 { drive, geo }),
            Err(e) => Err(e),
        }
    }

    /// Mounts the FAT32 volume of `drive`, given its sector 0 and, when
    /// sector 0 names a FAT32 partition, the first sector of that partition
    /// (read at the LBA that `locate_bpb` gives).
    pub fn new(drive: Drive, sector0: &[u8; 512], part: Option<&[u8; 512]>) -> (r: Result<
        Self,
        Fat32Error,
    >)
        requires
            mount_inputs(sector0@, opt_sector(part)),
            mount_addressable(sector0@, opt_sector(part)),
        ensures
            match (r, spec_mount(sector0@, opt_sector(part))) {
                (Ok(fs), Ok(g)) => fs.spec_geometry() == g && fs.wf() && *fs.spec_drive()
                    == drive,
                (Err(e1), Err(e2)) => e1 == e2,
                _ => false,
            },
    {
        match locate_bpb(sector0) {
            Err(e) => Err(e),
            Ok(Some(lba)) => {
                let bpb = part.unwrap();
                match check_bpb_signature(bpb) {
                    Err(e) => Err(e),
                    Ok(()) => Self::parse_bpb(drive, *bpb, lba),
                }
            },
            Ok(None) => Self::parse_bpb(drive, *sector0, 0),
        }
    }

    /// The first sector of the volume, where its BIOS parameter block lies.
    pub fn partition_lba(&self) -> (lba: u32)
        ensures
            lba == self.spec_geometry().partition_lba,
    {
        self.geo.partition_lba
    }

    /// Starts listing the root directory.
    pub fn root_entries(&self) -> (w: DirWalk)
        ensures
            w.spec_entries() == Seq::<DirEntryView>::empty(),
            w.spec_cluster() == self.spec_geometry().root_cluster,
            !w.spec_done(),
    {
        DirWalk::new(self.geo.root_cluster)
    }

    /// Starts looking up the file at `path` from the root directory; a path
    /// with nothing but slashes is refused.
    pub fn open_file(&self, path: &str) -> (r: Result<PathWalk, Fat32Error>)
        ensures
            trim_leading_slashes(path.spec_bytes()).len() == 0 ==> r == Err::<
                PathWalk,
                Fat32Error,
            >(Fat32Error::EmptyPath),
            trim_leading_slashes(path.spec_bytes()).len() != 0 ==> (r matches Ok(w) && w.wf()
                && w.spec_parts() == path_components(path.spec_bytes()) && w.spec_index() == 0
                && w.spec_cluster() == self.spec_geometry().root_cluster),
    {
        PathWalk::start(self.geo.root_cluster, path)
    }

    /// The volume label, given the volume's first sector `bpb` (read at
    /// `partition_lba`).
    pub fn volume_label(&self, bpb: &[u8; 512]) -> (r: Option<String>)
        ensures
            r is Some <==> spec_volume_label(bpb@) is Some,
            r matches Some(s) ==> spec_volume_label(bpb@) == Some(s@),
    {
        volume_label_from_bpb(bpb)
    }

    /// The geometry.
    pub fn geometry(&self) -> (g: Geometry)
        ensures
            g == self.spec_geometry(),
    {
        self.geo
    }

    /// The drive, for the transfers the volume's operations ask for.
    pub fn drive_mut(&mut self) -> (d: &mut Drive)
        ensures
            *d == *old(self).spec_drive(),
            final(self).spec_geometry() == old(self).spec_geometry(),
            *final(self).spec_drive() == *final(d),
            final(self).wf() == old(self).wf(),
    {
        &mut self.drive
    }

    /// The first cluster of the root directory.
    pub fn root_cluster(&self) -> (c: u32)
        ensures
            c == self.spec_geometry().root_cluster,
    {
        self.geo.root_cluster
    }

    /// Whether `cluster` is a data cluster whose first sector is addressable.
    pub fn cluster_addressable(&self, cluster: u32) -> (b: bool)
        ensures
            b == self.spec_geometry().cluster_addressable(cluster),
    {
        if cluster < 2 {
            return false;
        }
        let c = (cluster - 2) as u64;
        let spc = self.geo.sectors_per_cluster as u64;
        assert(c * spc <= 0xFFFF_FFFF * 255) by (nonlinear_arith)
            requires
                c <= 0xFFFF_FFFF,
                spc <= 255,
        ;
        let lba = self.geo.first_data_sector as u64 + c * spc;
        lba <= 0xFFFF_FFFF
    }

    /// The first sector of `cluster`.
    pub fn cluster_to_lba(&self, cluster: u32) -> (lba: u32)
        requires
            self.spec_geometry().cluster_addressable(cluster),
        ensures
            lba == self.spec_geometry().cluster_lba(cluster),
    {
        assert(0 <= (cluster - 2) * (self.geo.sectors_per_cluster as int)) by (nonlinear_arith)
            requires
                cluster >= 2,
        ;
        self.geo.first_data_sector + (cluster - 2) * (self.geo.sectors_per_cluster as u32)
    }

    /// Bytes per cluster.
    pub fn cluster_byte_size(&self) -> (n: usize)
        ensures
            n == self.spec_geometry().cluster_bytes(),
            n == self.spec_geometry().sectors_per_cluster * 512,
    {
        (self.geo.sectors_per_cluster as usize) * SECTOR_SIZE
    }

    /// The read that fetches `cluster` into a buffer of `buf_len` bytes:
    /// from its first sector, or an error when the buffer cannot hold a
    /// cluster.
    pub fn read_cluster(&self, cluster: u32, buf_len: usize) -> (r: Result<u32, Fat32Error>)
        requires
            self.spec_geometry().cluster_addressable(cluster),
        ensures
            buf_len < self.spec_geometry().cluster_bytes() ==> r == Err::<u32, Fat32Error>(
                Fat32Error::BufferTooSmall,
            ),
            buf_len >= self.spec_geometry().cluster_bytes() ==> r == Ok::<u32, Fat32Error>(
                self.spec_geometry().cluster_lba(cluster) as u32,
            ),
    {
        let lba = self.cluster_to_lba(cluster);
        let size = self.cluster_byte_size();
        if buf_len < size {
            return Err(Fat32Error::BufferTooSmall);
        }
        Ok(lba)
    }

    /// Whether the FAT sector of `cluster` is addressable.
    pub fn fat_addressable(&self, cluster: u32) -> (b: bool)
        requires
            self.wf(),
        ensures
            b == self.spec_geometry().fat_addressable(cluster),
    {
        let sector = self.geo.partition_lba as u64 + self.geo.reserved_sectors as u64 + (
        cluster as u64) / 128;
        assert((cluster * 4) / 512 == cluster / 128);
        sector <= 0xFFFF_FFFF
    }

    /// Where the FAT entry of `cluster` is: the FAT sector and the byte
    /// offset in it.
    pub fn fat_entry_location(&self, cluster: u32) -> (r: (u32, usize))
        requires
            self.wf(),
            self.spec_geometry().fat_addressable(cluster),
        ensures
            r.0 == self.spec_geometry().fat_sector(cluster),
            r.1 == (cluster * 4) % 512,
            r.1 + 4 <= 512,
    {
        let fat_off = (cluster as u64) * 4;
        assert(0 <= self.geo.fats * self.geo.sectors_per_fat) by (nonlinear_arith);
        let fat_base = self.geo.partition_lba + self.geo.reserved_sectors as u32;
        let sector_idx = fat_off / 512;
        let byte_off = fat_off % 512;
        assert(byte_off % 4 == 0);
        (fat_base + sector_idx as u32, byte_off as usize)
    }
    /// The FAT entry of `cluster`, given the FAT sector that
    /// `fat_entry_location` names: the 28-bit value at its offset.
    pub fn read_fat_entry(&self, cluster: u32, sector: &[u8; 512]) -> (v: u32)
        requires
            self.wf(),
            self.spec_geometry().fat_addressable(cluster),
        ensures
            v == le32(sector@, (cluster * 4) % 512) & 0x0FFF_FFFF,
    {
        let (_, off) = self.fat_entry_location(cluster);
        fat_entry_from_sector(sector, off)
    }

    /// Starts listing the directory whose chain begins at `cluster`.
    pub fn read_dir_entries(&self, cluster: u32) -> (w: DirWalk)
        ensures
            w.spec_entries() == Seq::<DirEntryView>::empty(),
            w.spec_cluster() == cluster,
            !w.spec_done(),
    {
        DirWalk::new(cluster)
    }

    /// Starts reading a file of `size` bytes whose chain begins at
    /// `first_cluster`.
    pub fn read_file_data(&self, first_cluster: u32, size: u32) -> (r: FileRead)
        ensures
            r.wf(),
            r.spec_data() == Seq::new(size as nat, |i: int| 0u8),
            r.spec_offset() == 0,
            r.spec_cluster() == first_cluster,
    {
        FileRead::new(first_cluster, size)
    }

}

/// The state of listing one directory by following its cluster chain.
pub struct DirWalk {
    entries: Vec<DirEntry>,
    cluster: u32,
    done: bool,
}

impl DirWalk {
    /// The entries listed so far.
    pub closed spec fn spec_entries(&self) -> Seq<DirEntryView> {
        entries_view(self.entries@)
    }

    /// The cluster to read next.
    pub closed spec fn spec_cluster(&self) -> u32 {
        self.cluster
    }

    /// The listing is complete.
    pub closed spec fn spec_done(&self) -> bool {
        self.done
    }

    /// Starts listing the directory whose chain begins at `cluster`.
    pub fn new(cluster: u32) -> (w: Self)
        ensures
            w.spec_entries() == Seq::<DirEntryView>::empty(),
            w.spec_cluster() == cluster,
            !w.spec_done(),
    {
        let w = DirWalk { entries: Vec::new(), cluster, done: false };
        assert(w.spec_entries() =~= Seq::<DirEntryView>::empty());
        w
    }

    /// The cluster to read next.
    pub fn cluster(&self) -> (c: u32)
        ensures
            c == self.spec_cluster(),
    {
        self.cluster
    }

    /// Whether the listing is complete.
    pub fn is_done(&self) -> (b: bool)
        ensures
            b == self.spec_done(),
    {
        self.done
    }

    /// Takes in the contents of the current cluster; the walk is done when
    /// it holds the end-of-directory record.
    pub fn take_cluster(&mut self, buf: &[u8])
        requires
            !old(self).spec_done(),
            buf@.len() % 32 == 0,
        ensures
            final(self).spec_entries() == old(self).spec_entries() + cluster_entries(buf@),
            final(self).spec_done() == cluster_ends_dir(buf@),
            final(self).spec_cluster() == old(self).spec_cluster(),
    {
        let ended = parse_dir_cluster(buf, &mut self.entries);
        self.done = ended;
    }

    /// Moves on to the next cluster of the chain, given the FAT value of the
    /// current one; an end-of-chain value completes the walk.
    pub fn advance(&mut self, next: u32)
        requires
            !old(self).spec_done(),
        ensures
            final(self).spec_entries() == old(self).spec_entries(),
            final(self).spec_cluster() == next,
            final(self).spec_done() == (next >= EOC_MARK),
    {
        self.cluster = next;
        self.done = is_eoc(next);
    }

    /// The entries listed.
    pub fn into_entries(self) -> (v: Vec<DirEntry>)
        ensures
            entries_view(v@) == self.spec_entries(),
    {
        self.entries
    }
}

/// The file bytes after copying a cluster's contents `buf` at offset
/// `off` of `d`, as much as `d` has room for, and the new offset.
pub open spec fn take_step(d: Seq<u8>, off: nat, buf: Seq<u8>) -> (Seq<u8>, nat) {
    let n = if buf.len() < d.len() - off {
        buf.len() as int
    } else {
        d.len() - off
    };
    (d.subrange(0, off as int) + buf.subrange(0, n) + d.subrange(off + n, d.len() as int), (off
        + n) as nat)
}

/// The file bytes and offset after copying the clusters `bufs` in order.
pub open spec fn take_all(d: Seq<u8>, off: nat, bufs: Seq<Seq<u8>>) -> (Seq<u8>, nat)
    decreases bufs.len(),
{
    if bufs.len() == 0 {
        (d, off)
    } else {
        let prev = take_all(d, off, bufs.drop_last());
        take_step(prev.0, prev.1, bufs.last())
    }
}

/// The bytes of the clusters `bufs`, one after another.
pub open spec fn chain_bytes(bufs: Seq<Seq<u8>>) -> Seq<u8>
    decreases bufs.len(),
{
    if bufs.len() == 0 {
        Seq::empty()
    } else {
        chain_bytes(bufs.drop_last()) + bufs.last()
    }
}

/// What a file read gives back is what its clusters hold: reading the
/// clusters `bufs` of a chain into a file of `size` bytes gives their
/// bytes, one after another, cut at the file's size, and zeros after them
/// when the chain holds fewer bytes than that.
pub proof fn law_file_read_gives_chain_bytes(size: nat, bufs: Seq<Seq<u8>>)
    ensures
        ({
            let r = take_all(Seq::new(size, |i: int| 0u8), 0, bufs);
            let all = chain_bytes(bufs);
            let m = if all.len() < size {
                all.len()
            } else {
                size
            };
            &&& r.1 == m
            &&& r.0 == all.subrange(0, m as int) + Seq::new((size - m) as nat, |i: int| 0u8)
        }),
    decreases bufs.len(),
{
    let z = Seq::new(size, |i: int| 0u8);
    if bufs.len() == 0 {
        assert(z =~= Seq::<u8>::empty().subrange(0, 0) + Seq::new(size, |i: int| 0u8));
    } else {
        let p = bufs.drop_last();
        law_file_read_gives_chain_bytes(size, p);
        let prev = take_all(z, 0, p);
        let pa = chain_bytes(p);
        let b = bufs.last();
        let all = chain_bytes(bufs);
        assert(all == pa + b);
        let m0 = prev.1 as int;
        let n = if b.len() < size - m0 {
            b.len() as int
        } else {
            size - m0
        };
        let m = if all.len() < size {
            all.len() as int
        } else {
            size as int
        };
        if pa.len() < size {
            assert(m0 == pa.len());
            assert(m == m0 + n);
        } else {
            assert(m0 == size);
            assert(n == 0);
            assert(m == size);
        }
        assert(take_all(z, 0, bufs) == take_step(prev.0, prev.1, b));
        assert(take_all(z, 0, bufs).0 =~= all.subrange(0, m) + Seq::new(
            (size - m) as nat,
            |i: int| 0u8,
        ));
    }
}

/// The state of reading a file's data by following its cluster chain.
pub struct FileRead {
    data: Vec<u8>,
    offset: usize,
    cluster: u32,
}

impl FileRead {
    /// The file's bytes: those read so far, then zeros.
    pub closed spec fn spec_data(&self) -> Seq<u8> {
        self.data@
    }

    /// How many bytes were read so far.
    pub closed spec fn spec_offset(&self) -> nat {
        self.offset as nat
    }

    /// The cluster to read next.
    pub closed spec fn spec_cluster(&self) -> u32 {
        self.cluster
    }

    /// No more bytes were read than the file has.
    pub closed spec fn wf(&self) -> bool {
        self.offset <= self.data@.len()
    }

    /// More data is to be read: the chain has not ended and the file is not full.
    pub open spec fn spec_wants_cluster(&self) -> bool {
        self.spec_cluster() < EOC_MARK && self.spec_offset() < self.spec_data().len()
    }

    /// Starts reading a file of `size` bytes whose chain begins at `first_cluster`.
    pub fn new(first_cluster: u32, size: u32) -> (r: Self)
        ensures
            r.wf(),
            r.spec_data() == Seq::new(size as nat, |i: int| 0u8),
            r.spec_offset() == 0,
            r.spec_cluster() == first_cluster,
    {
        let data = vec![0u8; size as usize];
        let r = FileRead { data, offset: 0, cluster: first_cluster };
        assert(r.spec_data() =~= Seq::new(size as nat, |i: int| 0u8));
        r
    }

    /// The cluster to read next.
    pub fn cluster(&self) -> (c: u32)
        ensures
            c == self.spec_cluster(),
    {
        self.cluster
    }

    /// Whether more data is to be read.
    pub fn wants_cluster(&self) -> (b: bool)
        ensures
            b == self.spec_wants_cluster(),
    {
        !is_eoc(self.cluster) && self.offset < self.data.len()
    }

    /// Copies the current cluster's contents `buf` into the file, as much of
    /// it as the file still has room for.
    pub fn take_cluster(&mut self, buf: &[u8])
        requires
            old(self).wf(),
        ensures
            final(self).wf(),
            (final(self).spec_data(), final(self).spec_offset()) == take_step(
                old(self).spec_data(),
                old(self).spec_offset(),
                buf@,
            ),
            final(self).spec_cluster() == old(self).spec_cluster(),
            final(self).spec_data().len() == old(self).spec_data().len(),
    {
        let len = self.data.len();
        let remaining = len - self.offset;
        let to_copy = if buf.len() < remaining {
            buf.len()
        } else {
            remaining
        };
        let ghost d0 = self.data@;
        let ghost off = self.offset as int;
        let ghost c0 = self.cluster;
        let mut i: usize = 0;
        while i < to_copy
            invariant
                to_copy <= buf@.len(),
                self.offset + to_copy <= len,
                self.offset == off,
                self.cluster == c0,
                self.data@.len() == len,
                d0.len() == len,
                i <= to_copy,
                forall|j: int| 0 <= j < off ==> self.data@[j] == d0[j],
                forall|j: int| off <= j < off + i ==> self.data@[j] == buf@[j - off],
                forall|j: int| off + to_copy <= j < len ==> self.data@[j] == d0[j],
                forall|j: int| off + i <= j < off + to_copy ==> self.data@[j] == d0[j],
            decreases to_copy - i,
        {
            self.data.set(self.offset + i, buf[i]);
            i += 1;
        }
        assert(self.data@ =~= d0.subrange(0, off) + buf@.subrange(0, to_copy as int) + d0.subrange(
            off + to_copy,
            len as int,
        ));
        self.offset = self.offset + to_copy;
    }

    /// Moves on to the next cluster of the chain.
    pub fn advance(&mut self, next: u32)
        ensures
            final(self).wf() == old(self).wf(),
            final(self).spec_cluster() == next,
            final(self).spec_data() == old(self).spec_data(),
            final(self).spec_offset() == old(self).spec_offset(),
    {
        self.cluster = next;
    }

    /// The file's data.
    pub fn into_data(self) -> (v: Vec<u8>)
        ensures
            v@ == self.spec_data(),
    {
        self.data
    }
}


/// `s` without its leading `/` bytes.
pub open spec fn trim_leading_slashes(s: Seq<u8>) -> Seq<u8>
    decreases s.len(),
{
    if s.len() > 0 && s[0] == 0x2F {
        trim_leading_slashes(s.drop_first())
    } else {
        s
    }
}

/// The pieces of `s` between the `sep` bytes (as `str::split` gives them).
pub open spec fn split_on(s: Seq<u8>, sep: u8) -> Seq<Seq<u8>>
    decreases s.len(),
{
    if s.len() == 0 {
        seq![Seq::<u8>::empty()]
    } else {
        let prev = split_on(s.drop_last(), sep);
        if s.last() == sep {
            prev.push(Seq::<u8>::empty())
        } else {
            prev.update(prev.len() - 1, prev.last().push(s.last()))
        }
    }
}

/// `split_on` never yields an empty list.
pub proof fn lemma_split_on_nonempty(s: Seq<u8>, sep: u8)
    ensures
        split_on(s, sep).len() >= 1,
    decreases s.len(),
{
    if s.len() > 0 {
        lemma_split_on_nonempty(s.drop_last(), sep);
    }
}

/// The components of a path: the pieces between `/` after the leading
/// slashes are dropped.
pub open spec fn path_components(p: Seq<u8>) -> Seq<Seq<u8>> {
    split_on(trim_leading_slashes(p), 0x2F)
}

/// The position of the first entry whose name is the UTF-8 string `name`,
/// searching from `i`.
pub open spec fn first_named(entries: Seq<DirEntryView>, name: Seq<u8>, i: int) -> Option<int>
    decreases entries.len() - i,
{
    if i < 0 || i >= entries.len() {
        None
    } else if encode_utf8(entries[i].name) == name {
        Some(i)
    } else {
        first_named(entries, name, i + 1)
    }
}

/// What a path lookup does after listing one directory.
#[derive(Debug, Clone, Copy, PartialEq, Eq, Structural)]
pub enum OpenStep {
    /// The component names a directory: list it next.
    Descend,
    /// The last component names a file: read its data.
    ReadFile { first_cluster: u32, size: u32 },
    /// The lookup fails.
    Failed(Fat32Error),
}

/// The step decided for component `part` (the last one or not) given the
/// entries of the directory it is looked up in.
pub open spec fn spec_open_step(entries: Seq<DirEntryView>, part: Seq<u8>, last: bool) -> OpenStep {
    match first_named(entries, part, 0) {
        Some(i) => if last {
            if entries[i].is_dir {
                OpenStep::Failed(Fat32Error::PathIsDirectory)
            } else {
                OpenStep::ReadFile { first_cluster: entries[i].first_cluster, size: entries[i].size }
            }
        } else if entries[i].is_dir {
            OpenStep::Descend
        } else {
            OpenStep::Failed(Fat32Error::NotADirectory)
        },
        None => OpenStep::Failed(Fat32Error::NotFound),
    }
}

/// Whether two byte strings are equal.
pub fn bytes_eq(a: &[u8], b: &[u8]) -> (r: bool)
    ensures
        r == (a@ == b@),
{
    if a.len() != b.len() {
        return false;
    }
    let mut i: usize = 0;
    while i < a.len()
        invariant
            a@.len() == b@.len(),
            i <= a@.len(),
            forall|j: int| 0 <= j < i ==> a@[j] == b@[j],
        decreases a@.len() - i,
    {
        if a[i] != b[i] {
            return false;
        }
        i += 1;
    }
    assert(a@ =~= b@);
    true
}

/// The byte strings held by a list of byte vectors.
pub open spec fn parts_view(v: Seq<Vec<u8>>) -> Seq<Seq<u8>> {
    v.map_values(|p: Vec<u8>| p@)
}

/// Splits the path bytes `p` into its components.
pub fn split_path(p: &[u8]) -> (parts: Vec<Vec<u8>>)
    ensures
        parts_view(parts@) == path_components(p@),
{
    let mut start: usize = 0;
    assert(p@.subrange(0, p@.len() as int) =~= p@);
    while start < p.len() && p[start] == 0x2F
        invariant
            start <= p@.len(),
            trim_leading_slashes(p@) == trim_leading_slashes(p@.subrange(start as int, p@.len() as int)),
        decreases p@.len() - start,
    {
        assert(p@.subrange(start as int, p@.len() as int).drop_first() =~= p@.subrange(
            start + 1,
            p@.len() as int,
        ));
        start += 1;
    }
    let ghost t = p@.subrange(start as int, p@.len() as int);
    assert(trim_leading_slashes(t) == t);
    let mut parts: Vec<Vec<u8>> = Vec::new();
    let mut cur: Vec<u8> = Vec::new();
    let mut k: usize = start;
    assert(t.subrange(0, 0) =~= Seq::<u8>::empty());
    assert(parts_view(parts@).push(cur@) =~= split_on(t.subrange(0, 0), 0x2F));
    while k < p.len()
        invariant
            start <= k <= p@.len(),
            t == p@.subrange(start as int, p@.len() as int),
            parts_view(parts@).push(cur@) == split_on(t.subrange(0, k - start), 0x2F),
        decreases p@.len() - k,
    {
        let ghost pre = t.subrange(0, k - start);
        let ghost next = t.subrange(0, k + 1 - start);
        assert(next.drop_last() =~= pre);
        assert(next.last() == p@[k as int]);
        proof {
            lemma_split_on_nonempty(pre, 0x2F);
        }
        if p[k] == 0x2F {
            let done = cur;
            cur = Vec::new();
            let ghost before = parts_view(parts@);
            parts.push(done);
            assert(parts_view(parts@) =~= before.push(done@));
            assert(parts_view(parts@).push(cur@) =~= split_on(next, 0x2F));
        } else {
            let ghost before = cur@;
            cur.push(p[k]);
            assert(parts_view(parts@).push(cur@) =~= split_on(next, 0x2F));
        }
        k += 1;
    }
    assert(t.subrange(0, k - start) =~= t);
    let ghost before = parts_view(parts@);
    let last = cur;
    parts.push(last);
    assert(parts_view(parts@) =~= before.push(last@));
    parts
}

/// The state of looking up a path, one directory at a time.
pub struct PathWalk {
    parts: Vec<Vec<u8>>,
    index: usize,
    cluster: u32,
}

impl PathWalk {
    /// The path's components.
    pub closed spec fn spec_parts(&self) -> Seq<Seq<u8>> {
        parts_view(self.parts@)
    }

    /// The component looked up next.
    pub closed spec fn spec_index(&self) -> nat {
        self.index as nat
    }

    /// The first cluster of the directory to list next.
    pub closed spec fn spec_cluster(&self) -> u32 {
        self.cluster
    }

    /// The component index is a component.
    pub closed spec fn wf(&self) -> bool {
        self.index < self.parts@.len()
    }

    /// Starts looking up `path` from the directory at `root_cluster`; a
    /// path with nothing but slashes is refused.
    pub fn start(root_cluster: u32, path: &str) -> (r: Result<Self, Fat32Error>)
        ensures
            trim_leading_slashes(path.spec_bytes()).len() == 0 ==> r == Err::<Self, Fat32Error>(
                Fat32Error::EmptyPath,
            ),
            trim_leading_slashes(path.spec_bytes()).len() != 0 ==> (r matches Ok(w) && w.wf()
                && w.spec_parts() == path_components(path.spec_bytes()) && w.spec_index() == 0
                && w.spec_cluster() == root_cluster),
    {
        let bytes = path.as_bytes();
        let mut start: usize = 0;
        assert(bytes@.subrange(0, bytes@.len() as int) =~= bytes@);
        while start < bytes.len() && bytes[start] == 0x2F
            invariant
                start <= bytes@.len(),
                trim_leading_slashes(bytes@) == trim_leading_slashes(
                    bytes@.subrange(start as int, bytes@.len() as int),
                ),
            decreases bytes@.len() - start,
        {
            assert(bytes@.subrange(start as int, bytes@.len() as int).drop_first() =~= bytes@.subrange(
                start + 1,
                bytes@.len() as int,
            ));
            start += 1;
        }
        let ghost t = bytes@.subrange(start as int, bytes@.len() as int);
        assert(trim_leading_slashes(t) == t);
        if start == bytes.len() {
            return Err(Fat32Error::EmptyPath);
        }
        let parts = split_path(bytes);
        proof {
            lemma_split_on_nonempty(trim_leading_slashes(bytes@), 0x2F);
        }
        Ok(PathWalk { parts, index: 0, cluster: root_cluster })
    }

    /// The first cluster of the directory to list next.
    pub fn cluster(&self) -> (c: u32)
        ensures
            c == self.spec_cluster(),
    {
        self.cluster
    }

    /// Looks the current component up in `entries`, the listing of the
    /// current directory, and moves to the next component when it names a
    /// directory on the way.
    pub fn step(&mut self, entries: &Vec<DirEntry>) -> (s: OpenStep)
        requires
            old(self).wf(),
        ensures
            s == spec_open_step(
                entries_view(entries@),
                old(self).spec_parts()[old(self).spec_index() as int],
                old(self).spec_index() + 1 == old(self).spec_parts().len(),
            ),
            final(self).spec_parts() == old(self).spec_parts(),
            s == OpenStep::Descend ==> {
                &&& final(self).wf()
                &&& final(self).spec_index() == old(self).spec_index() + 1
                &&& final(self).spec_cluster() == entries_view(entries@)[first_named(
                    entries_view(entries@),
                    old(self).spec_parts()[old(self).spec_index() as int],
                    0,
                ).unwrap()].first_cluster
            },
    {
        let ghost ev = entries_view(entries@);
        let np = self.parts.len();
        let is_last = self.index == np - 1;
        assert(parts_view(self.parts@).len() == self.parts@.len());
        let part = self.parts[self.index].as_slice();
        let ghost pv = parts_view(self.parts@)[self.index as int];
        assert(part@ == pv);
        let mut i: usize = 0;
        while i < entries.len()
            invariant
                ev == entries_view(entries@),
                self.parts@ == old(self).parts@,
                self.index == old(self).index,
                self.cluster == old(self).cluster,
                is_last == (old(self).spec_index() + 1 == old(self).spec_parts().len()),
                old(self).wf(),
                np == self.parts@.len(),
                pv == old(self).spec_parts()[old(self).spec_index() as int],
                i <= entries@.len(),
                part@ == pv,
                first_named(ev, pv, 0) == first_named(ev, pv, i as int),
            decreases entries@.len() - i,
        {
            let e = &entries[i];
            assert(ev[i as int] == e@);
            let name_bytes = e.name.as_str().as_bytes();
            if bytes_eq(name_bytes, part) {
                assert(first_named(ev, pv, i as int) == Some(i as int));
                assert(is_last == (old(self).spec_index() + 1 == old(self).spec_parts().len()));
                if is_last {
                    if e.is_dir {
                        return OpenStep::Failed(Fat32Error::PathIsDirectory);
                    }
                    return OpenStep::ReadFile { first_cluster: e.first_cluster, size: e.size };
                }
                if e.is_dir {
                    self.cluster = e.first_cluster;
                    self.index = self.index + 1;
                    return OpenStep::Descend;
                }
                return OpenStep::Failed(Fat32Error::NotADirectory);
            }
            i += 1;
        }
        OpenStep::Failed(Fat32Error::NotFound)
    }
}


/// The init program's file name, as the boot disk may spell it.
pub open spec fn is_init_name(n: Seq<char>) -> bool {
    n == "INIT.ELF"@ || n == "init.elf"@
}

/// The position of the first entry from `i` on that is a file named like
/// the init program.
pub open spec fn first_init(entries: Seq<DirEntryView>, i: int) -> Option<int>
    decreases entries.len() - i,
{
    if i < 0 || i >= entries.len() {
        None
    } else if !entries[i].is_dir && is_init_name(entries[i].name) {
        Some(i)
    } else {
        first_init(entries, i + 1)
    }
}

/// Finds the init program among the entries of the root directory.
pub fn find_init_elf(entries: &Vec<DirEntry>) -> (r: Option<usize>)
    ensures
        r matches Some(i) ==> first_init(entries_view(entries@), 0) == Some(i as int),
        r is None ==> first_init(entries_view(entries@), 0) is None,
{
    let ghost ev = entries_view(entries@);
    let upper = chars_of("INIT.ELF");
    let lower = chars_of("init.elf");
    let mut i: usize = 0;
    while i < entries.len()
        invariant
            ev == entries_view(entries@),
            upper@ == "INIT.ELF"@,
            lower@ == "init.elf"@,
            i <= entries@.len(),
            first_init(ev, 0) == first_init(ev, i as int),
        decreases entries@.len() - i,
    {
        let e = &entries[i];
        assert(ev[i as int] == e@);
        if !e.is_dir {
            let name = chars_of(e.name.as_str());
            if chars_eq(name.as_slice(), upper.as_slice()) || chars_eq(name.as_slice(), lower.as_slice()) {
                return Some(i);
            }
        }
        i += 1;
    }
    None
}

/// Clusters do not overlap: a later cluster starts at or after the end of
/// an earlier one, and a cluster's sectors follow the data area's start.
pub proof fn law_clusters_disjoint(g: Geometry, c1: u32, c2: u32)
    requires
        2 <= c1 < c2,
    ensures
        g.cluster_lba(c1) + g.sectors_per_cluster <= g.cluster_lba(c2),
        g.cluster_lba(c1) >= g.first_data_sector,
{
    assert((c1 - 2) * g.sectors_per_cluster + g.sectors_per_cluster <= (c2 - 2)
        * g.sectors_per_cluster) by (nonlinear_arith)
        requires
            c1 < c2,
            g.sectors_per_cluster >= 0,
            c1 >= 2,
    ;
    assert((c1 - 2) * g.sectors_per_cluster >= 0) by (nonlinear_arith)
        requires
            c1 >= 2,
            g.sectors_per_cluster >= 0,
    ;
}

/// The FAT entry of cluster `c` is the 4 bytes at offset `4 * c` of the
/// FAT, which starts after the reserved sectors of the partition.
pub proof fn law_fat_entry_position(g: Geometry, c: u32, sector: int, off: int)
    requires
        sector == g.fat_sector(c),
        off == (c * 4) % 512,
    ensures
        sector * 512 + off == (g.partition_lba + g.reserved_sectors) * 512 + c * 4,
        off + 4 <= 512,
{
}

/// The bytes of the pieces, joined with `sep` between them.
pub open spec fn join_on(parts: Seq<Seq<u8>>, sep: u8) -> Seq<u8>
    decreases parts.len(),
{
    if parts.len() == 0 {
        Seq::empty()
    } else if parts.len() == 1 {
        parts[0]
    } else {
        join_on(parts.drop_last(), sep).push(sep) + parts.last()
    }
}

/// Splitting at a separator loses nothing: joining the pieces with the
/// separator gives back the text.
pub proof fn law_split_join(s: Seq<u8>, sep: u8)
    ensures
        join_on(split_on(s, sep), sep) == s,
    decreases s.len(),
{
    if s.len() > 0 {
        let prev = split_on(s.drop_last(), sep);
        law_split_join(s.drop_last(), sep);
        lemma_split_on_nonempty(s.drop_last(), sep);
        if s.last() == sep {
            let p = prev.push(Seq::<u8>::empty());
            assert(p.drop_last() =~= prev);
            assert(join_on(p, sep) =~= s.drop_last().push(sep) + Seq::<u8>::empty());
            assert(s.drop_last().push(sep) =~= s);
        } else {
            let n = prev.len();
            let p = prev.update(n - 1, prev.last().push(s.last()));
            if n == 1 {
                assert(join_on(prev, sep) == prev[0]);
                assert(join_on(p, sep) == p[0]);
                assert(p[0] =~= s);
            } else {
                assert(p.drop_last() =~= prev.drop_last());
                assert(join_on(prev, sep) == join_on(prev.drop_last(), sep).push(sep) + prev.last());
                assert(join_on(p, sep) == join_on(p.drop_last(), sep).push(sep) + p.last());
                assert(join_on(p, sep) =~= join_on(prev, sep).push(s.last()));
                assert(s.drop_last().push(s.last()) =~= s);
            }
        }
    }
}

/// A path's components, joined with `/`, give the path without its leading
/// slashes.
pub proof fn law_path_components_join(p: Seq<u8>)
    ensures
        join_on(path_components(p), 0x2F) == trim_leading_slashes(p),
{
    law_split_join(trim_leading_slashes(p), 0x2F);
}


// ---------------------------------------------------------------- a whole disk

/// `n` sectors of `disk` from sector `lba`, or nothing when they run past
/// its end (a read the drive refuses).
pub open spec fn disk_read(disk: Seq<u8>, lba: int, n: nat) -> Option<Seq<u8>> {
    if 0 <= lba && (lba + n) * 512 <= disk.len() {
        Some(disk.subrange(lba * 512, (lba + n) * 512))
    } else {
        None
    }
}

/// The contents of `cluster` on `disk`, as `Fat32::read_cluster` locates
/// it; nothing for a cluster without an addressable sector.
pub open spec fn disk_cluster(disk: Seq<u8>, g: Geometry, cluster: u32) -> Option<Seq<u8>> {
    if g.cluster_addressable(cluster) {
        disk_read(disk, g.cluster_lba(cluster), g.sectors_per_cluster as nat)
    } else {
        None
    }
}

/// The FAT entry of `cluster` on `disk`, as `Fat32::fat_entry_location`
/// and `Fat32::read_fat_entry` find it in the first FAT.
pub open spec fn disk_fat_entry(disk: Seq<u8>, g: Geometry, cluster: u32) -> Option<u32> {
    if g.fat_addressable(cluster) {
        match disk_read(disk, g.fat_sector(cluster), 1) {
            Some(s) => Some(le32(s, (cluster * 4) % 512) & 0x0FFF_FFFF),
            None => None,
        }
    } else {
        None
    }
}

/// The outcome of mounting `disk`: sector 0, then the partition's first
/// sector when sector 0 names one; nothing when a read runs past the disk.
pub open spec fn spec_mount_disk(disk: Seq<u8>) -> Option<Result<Geometry, Fat32Error>> {
    match disk_read(disk, 0, 1) {
        None => None,
        Some(s0) => match spec_locate_bpb(s0) {
            Ok(Some(lba)) => match disk_read(disk, lba as int, 1) {
                None => None,
                Some(p) => Some(spec_mount(s0, Some(p))),
            },
            _ => Some(spec_mount(s0, None)),
        },
    }
}

/// The listing of the directory whose chain starts at `cluster`, as a
/// `DirWalk` gathers it: each cluster's records in turn, up to the end
/// record or the end of the chain. Nothing when a read fails or the chain
/// is longer than `fuel` more clusters.
pub open spec fn list_dir(disk: Seq<u8>, g: Geometry, cluster: u32, fuel: nat) -> Option<
    Seq<DirEntryView>,
>
    decreases fuel,
{
    match disk_cluster(disk, g, cluster) {
        None => None,
        Some(buf) => if cluster_ends_dir(buf) {
            Some(cluster_entries(buf))
        } else {
            match disk_fat_entry(disk, g, cluster) {
                None => None,
                Some(next) => if next >= EOC_MARK {
                    Some(cluster_entries(buf))
                } else if fuel == 0 {
                    None
                } else {
                    match list_dir(disk, g, next, (fuel - 1) as nat) {
                        None => None,
                        Some(rest) => Some(cluster_entries(buf) + rest),
                    }
                },
            }
        },
    }
}

/// The file bytes that a `FileRead` holding `d` at offset `off`, about to
/// read `cluster`, ends with: while the chain goes on and the file has
/// room, each cluster is copied in and the chain followed. Nothing when a
/// read fails or more than `fuel` clusters are wanted.
pub open spec fn file_read(
    disk: Seq<u8>,
    g: Geometry,
    cluster: u32,
    d: Seq<u8>,
    off: nat,
    fuel: nat,
) -> Option<Seq<u8>>
    decreases fuel,
{
    if !(cluster < EOC_MARK && off < d.len()) {
        Some(d)
    } else if fuel == 0 {
        None
    } else {
        match disk_cluster(disk, g, cluster) {
            None => None,
            Some(buf) => {
                let s = take_step(d, off, buf);
                match disk_fat_entry(disk, g, cluster) {
                    None => None,
                    Some(next) => file_read(disk, g, next, s.0, s.1, (fuel - 1) as nat),
                }
            },
        }
    }
}

/// The outcome of looking up components `i..` of `parts` from the
/// directory at `cluster`, as a `PathWalk` does: list the directory, take
/// the step for the component, and descend, read the file, or fail.
/// Nothing when a read fails or the walk needs more than `fuel` steps.
pub open spec fn open_walk(
    disk: Seq<u8>,
    g: Geometry,
    parts: Seq<Seq<u8>>,
    i: nat,
    cluster: u32,
    fuel: nat,
) -> Option<Result<Seq<u8>, Fat32Error>>
    decreases fuel,
{
    if i >= parts.len() || fuel == 0 {
        None
    } else {
        match list_dir(disk, g, cluster, fuel) {
            None => None,
            Some(es) => match spec_open_step(es, parts[i as int], i + 1 == parts.len()) {
                OpenStep::Descend => open_walk(
                    disk,
                    g,
                    parts,
                    i + 1,
                    es[first_named(es, parts[i as int], 0).unwrap()].first_cluster,
                    (fuel - 1) as nat,
                ),
                OpenStep::ReadFile { first_cluster, size } => match file_read(
                    disk,
                    g,
                    first_cluster,
                    Seq::new(size as nat, |j: int| 0u8),
                    0,
                    fuel,
                ) {
                    None => None,
                    Some(data) => Some(Ok(data)),
                },
                OpenStep::Failed(e) => Some(Err(e)),
            },
        }
    }
}

/// The outcome of opening `path` on the volume of geometry `g` on `disk`,
/// as `Fat32::open_file` and the walk it starts give it.
pub open spec fn spec_open_file(disk: Seq<u8>, g: Geometry, path: Seq<u8>, fuel: nat) -> Option<
    Result<Seq<u8>, Fat32Error>,
> {
    if trim_leading_slashes(path).len() == 0 {
        Some(Err(Fat32Error::EmptyPath))
    } else {
        open_walk(disk, g, path_components(path), 0, g.root_cluster, fuel)
    }
}


// ---------------------------------------------------------------- laws of the walks

/// A cluster is `sectors_per_cluster` whole sectors: the bytes a cluster
/// read covers are exactly the sectors from the cluster's first sector up
/// to the next cluster's first sector, and what the disk holds there is
/// `cluster_bytes` long.
pub proof fn law_cluster_is_its_sectors(disk: Seq<u8>, g: Geometry, c: u32)
    ensures
        g.cluster_bytes() == g.sectors_per_cluster * 512,
        g.cluster_lba(2) == g.first_data_sector,
        2 <= c ==> g.cluster_lba(c) * 512 + g.cluster_bytes() == (g.cluster_lba(c)
            + g.sectors_per_cluster) * 512,
        2 <= c < u32::MAX ==> g.cluster_lba((c + 1) as u32) * 512 == g.cluster_lba(c) * 512
            + g.cluster_bytes(),
        disk_cluster(disk, g, c) matches Some(b) ==> b.len() == g.cluster_bytes(),
{
    let spc = g.sectors_per_cluster as int;
    assert((c + 1 - 2) * spc == (c - 2) * spc + spc) by (nonlinear_arith);
}

/// `end_record` finds an end record among records `i..n` exactly when one
/// of them starts with a zero byte.
proof fn lemma_end_record_finds_zero(buf: Seq<u8>, i: nat, n: nat)
    requires
        n * 32 <= buf.len(),
    ensures
        (end_record(buf, i, n) < n) <==> (exists|k: int| i <= k < n && buf[#[trigger] (32 * k)] == 0),
        end_record(buf, i, n) < n ==> buf[32 * end_record(buf, i, n) as int] == 0,
    decreases n - i,
{
    if i < n {
        lemma_end_record_finds_zero(buf, i + 1, n);
        if buf[32 * i as int] != 0 {
            if exists|k: int| i <= k < n && buf[#[trigger] (32 * k)] == 0 {
                let k = choose|k: int| i <= k < n && buf[#[trigger] (32 * k)] == 0;
                assert(k != i);
                assert(i + 1 <= k < n && buf[32 * k] == 0);
            }
        } else {
            assert(buf[32 * (i as int)] == 0);
        }
    }
}

/// A directory cluster ends the listing exactly when one of its records
/// starts with a zero byte: a cluster whose records all start otherwise
/// sends the walk on along the chain.
pub proof fn law_cluster_ends_dir_iff_zero_record(buf: Seq<u8>)
    requires
        buf.len() % 32 == 0,
    ensures
        cluster_ends_dir(buf) <==> (exists|k: int|
            0 <= k < buf.len() / 32 && buf[#[trigger] (32 * k)] == 0),
{
    lemma_end_record_finds_zero(buf, 0, buf.len() / 32);
}

/// Listing a directory whose first cluster `c1` holds no end record and
/// whose chain goes on to `c2` gives the entries of `c1` followed by the
/// listing from `c2`.
pub proof fn law_list_dir_follows_chain(
    disk: Seq<u8>,
    g: Geometry,
    c1: u32,
    b1: Seq<u8>,
    c2: u32,
    rest: Seq<DirEntryView>,
    fuel: nat,
)
    requires
        disk_cluster(disk, g, c1) == Some(b1),
        b1.len() % 32 == 0,
        forall|k: int| 0 <= k < b1.len() / 32 ==> b1[#[trigger] (32 * k)] != 0,
        disk_fat_entry(disk, g, c1) == Some(c2),
        c2 < EOC_MARK,
        fuel >= 1,
        list_dir(disk, g, c2, (fuel - 1) as nat) == Some(rest),
    ensures
        list_dir(disk, g, c1, fuel) == Some(cluster_entries(b1) + rest),
{
    law_cluster_ends_dir_iff_zero_record(b1);
}

/// The first MBR slot (of four, in order) whose type byte is 0x0B (FAT32
/// CHS) or 0x0C (FAT32 LBA) gives the partition: its start LBA is the
/// little-endian field at byte 8 of the slot. With the boot signature, the
/// BPB is then looked for at that LBA.
pub proof fn law_first_fat32_slot_found(s: Seq<u8>, i: int)
    requires
        0 <= i < 4,
        s.len() == 512,
        s[446 + 16 * i + 4] == 0x0B || s[446 + 16 * i + 4] == 0x0C,
        forall|j: int| 0 <= j < i ==> #[trigger] s[446 + 16 * j + 4] != 0x0B && s[446 + 16 * j + 4] != 0x0C,
    ensures
        first_fat32_slot(s, 0) == Some(le32(s, 446 + 16 * i + 8)),
        has_boot_signature(s) ==> spec_locate_bpb(s) == Ok::<Option<u32>, Fat32Error>(
            Some(le32(s, 446 + 16 * i + 8)),
        ),
{
    assert(s[446 + 16 * 0int + 4] == s[450]);
    assert(s[446 + 16 * 1int + 4] == s[466]);
    assert(s[446 + 16 * 2int + 4] == s[482]);
    reveal_with_fuel(first_fat32_slot, 5);
}

/// When no MBR slot has type 0x0B or 0x0C there is no FAT32 partition;
/// with the boot signature the volume is then unpartitioned (sector 0 is
/// the BPB) if it declares 512-byte sectors, and refused otherwise.
pub proof fn law_no_fat32_slot(s: Seq<u8>)
    requires
        s.len() == 512,
        forall|j: int| 0 <= j < 4 ==> #[trigger] s[446 + 16 * j + 4] != 0x0B && s[446 + 16 * j + 4] != 0x0C,
    ensures
        first_fat32_slot(s, 0) is None,
        has_boot_signature(s) ==> spec_locate_bpb(s) == (if s[0x0B] + 256 * s[0x0C] == 512 {
            Ok::<Option<u32>, Fat32Error>(None)
        } else {
            Err(Fat32Error::NoFat32Partition)
        }),
{
    assert(s[446 + 16 * 0int + 4] != 0x0B && s[446 + 16 * 0int + 4] != 0x0C);
    assert(s[446 + 16 * 1int + 4] != 0x0B && s[446 + 16 * 1int + 4] != 0x0C);
    assert(s[446 + 16 * 2int + 4] != 0x0B && s[446 + 16 * 2int + 4] != 0x0C);
    assert(s[446 + 16 * 3int + 4] != 0x0B && s[446 + 16 * 3int + 4] != 0x0C);
    reveal_with_fuel(first_fat32_slot, 5);
}

} // verus!
