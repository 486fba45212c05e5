use vstd::prelude::*;
use crate::fat32::{
    cluster_ends_dir, cluster_entries, end_record, first_named, path_components, records_entries,
    spec_mount, spec_open_step, split_on, trim_leading_slashes,
    DirEntryView, Fat32Error, Geometry, OpenStep, take_all, chain_bytes,
    law_file_read_gives_chain_bytes, EOC_MARK, disk_read, disk_cluster, disk_fat_entry,
    spec_mount_disk, list_dir, file_read, spec_open_file, spec_locate_bpb, take_step,
};
use crate::le::{le16, le32, wr_u16, wr_u32};
use vstd::string::StringSliceAdditionalSpecFns;
use vstd::utf8::{decode_utf8, encode_utf8, valid_utf8};
use crate::text::spec_trim_trailing_spaces;

verus! {

/// Size of the disk image the runner creates, in bytes.
pub const IMAGE_BYTES: u64 = 64 * 1024 * 1024;

/// Sector size of the image.
pub const IMAGE_SECTOR: u64 = 512;

/// Sectors per cluster of the image's volume.
pub const IMAGE_SPC: u8 = 8;

/// Reserved sectors of the image's volume.
pub const IMAGE_RESERVED: u16 = 32;

/// Number of FATs of the image's volume.
pub const IMAGE_FATS: u8 = 2;

/// The sector sizes of the image's volume.
#[derive(Debug, Clone, Copy, PartialEq, Eq, Structural)]
pub struct ImageLayout {
    pub total_sectors: u64,
    pub total_clusters: u64,
    pub fat_sectors: u32,
    pub first_data_sector: u64,
}

/// The layout: all sectors after the reserved ones are data clusters, and
/// each FAT holds an entry for every cluster plus the two reserved ones.
pub open spec fn spec_layout() -> ImageLayout {
    let total = IMAGE_BYTES / IMAGE_SECTOR;
    let clusters = (total - IMAGE_RESERVED) / (IMAGE_SPC as int);
    let fat_sectors = ((clusters + 2) * 4 + IMAGE_SECTOR - 1) / (IMAGE_SECTOR as int);
    ImageLayout {
        total_sectors: total as u64,
        total_clusters: clusters as u64,
        fat_sectors: fat_sectors as u32,
        first_data_sector: (IMAGE_RESERVED + IMAGE_FATS * fat_sectors) as u64,
    }
}

/// Computes the layout of the image.
pub fn image_layout() -> (l: ImageLayout)
    ensures
        l == spec_layout(),
        l.total_sectors == 131072,
        l.total_clusters == 16380,
        l.fat_sectors == 128,
        l.first_data_sector == 288,
{
    let total_sectors: u64 = IMAGE_BYTES / IMAGE_SECTOR;
    let data_sectors = total_sectors - IMAGE_RESERVED as u64;
    let total_clusters = data_sectors / IMAGE_SPC as u64;
    assert(data_sectors == 131040);
    assert(total_clusters == 16380) by (nonlinear_arith)
        requires
            total_clusters == data_sectors / 8,
            data_sectors == 131040,
    ;
    let fat_entries = total_clusters + 2;
    assert((fat_entries * 4 + 511) / 512 == 128int);
    let fat_sectors = ((fat_entries * 4 + IMAGE_SECTOR - 1) / IMAGE_SECTOR) as u32;
    let first_data_sector = IMAGE_RESERVED as u64 + IMAGE_FATS as u64 * fat_sectors as u64;
    ImageLayout { total_sectors, total_clusters, fat_sectors, first_data_sector }
}

/// The text of the file the image carries.
pub open spec fn readme_text() -> Seq<u8> {
    "ROS Disk Test - FAT32 driver is working!\nHello from the kernel!\n".spec_bytes()
}

/// Byte `i` of the image's boot sector (its BIOS parameter block).
pub open spec fn boot_byte(i: int) -> u8 {
    if i == 0 {
        0xEB
    } else if i == 1 {
        0x58
    } else if i == 2 {
        0x90
    } else if 3 <= i < 11 {
        seq![0x52u8, 0x4F, 0x53, 0x20, 0x20, 0x20, 0x20, 0x20][i - 3]
    } else if i == 0x0C {
        0x02
    } else if i == 0x0D {
        IMAGE_SPC
    } else if i == 0x0E {
        0x20
    } else if i == 0x10 {
        IMAGE_FATS
    } else if i == 0x15 {
        0xF8
    } else if i == 0x18 {
        0x20
    } else if i == 0x1A {
        0x40
    } else if i == 0x22 {
        0x02
    } else if i == 0x24 {
        0x80
    } else if i == 0x2C {
        0x02
    } else if i == 0x30 {
        0x01
    } else if i == 0x32 {
        0x06
    } else if i == 0x40 {
        0x80
    } else if i == 0x42 {
        0x29
    } else if 0x43 <= i < 0x47 {
        seq![0x78u8, 0x56, 0x34, 0x12][i - 0x43]
    } else if 0x47 <= i < 0x52 {
        seq![0x52u8, 0x4F, 0x53, 0x20, 0x44, 0x49, 0x53, 0x4B, 0x20, 0x20, 0x20][i - 0x47]
    } else if 0x52 <= i < 0x5A {
        seq![0x46u8, 0x41, 0x54, 0x33, 0x32, 0x20, 0x20, 0x20][i - 0x52]
    } else if i == 0x1FE {
        0x55
    } else if i == 0x1FF {
        0xAA
    } else {
        0
    }
}

/// The image's boot sector.
pub open spec fn boot_sector() -> Seq<u8> {
    Seq::new(512, |i: int| boot_byte(i))
}

/// The FSInfo sector recording `free` free clusters and `next` as the next
/// free one.
pub open spec fn fsinfo_sector(free: u32, next: u32) -> Seq<u8> {
    Seq::new(
        512,
        |i: int|
            if i == 0 || i == 1 {
                0x52u8
            } else if i == 2 {
                0x61u8
            } else if i == 3 {
                0x41u8
            } else if 0x1E4 <= i < 0x1E8 {
                ((free as int / pow256(i - 0x1E4)) % 0x100) as u8
            } else if 0x1E8 <= i < 0x1EC {
                ((next as int / pow256(i - 0x1E8)) % 0x100) as u8
            } else if i == 0x1FC {
                0x55u8
            } else if i == 0x1FD {
                0xAAu8
            } else {
                0u8
            },
    )
}

/// 256 to the power `k`, for `k` below 4.
pub open spec fn pow256(k: int) -> int {
    if k == 0 {
        1
    } else if k == 1 {
        0x100
    } else if k == 2 {
        0x1_0000
    } else {
        0x100_0000
    }
}

/// A FAT of `sectors` sectors: the media entry, then the end-of-chain
/// entries of cluster 1 and of the root directory's cluster 2.
pub open spec fn fat_table(sectors: nat) -> Seq<u8> {
    Seq::new(
        sectors * 512,
        |i: int|
            if 0 <= i < 12 {
                seq![0xF8u8, 0xFF, 0xFF, 0x0F, 0xFF, 0xFF, 0xFF, 0x0F, 0xFF, 0xFF, 0xFF, 0x0F][i]
            } else {
                0u8
            },
    )
}

/// An end-of-chain FAT entry.
pub open spec fn eoc_entry() -> Seq<u8> {
    seq![0xFFu8, 0xFF, 0xFF, 0x0F]
}

/// The root directory's cluster: one record for `README.TXT`, a file of
/// `len` bytes at cluster 3.
pub open spec fn root_cluster(len: u32) -> Seq<u8> {
    Seq::new(
        4096,
        |i: int|
            if 0 <= i < 11 {
                seq![0x52u8, 0x45, 0x41, 0x44, 0x4D, 0x45, 0x20, 0x20, 0x54, 0x58, 0x54][i]
            } else if i == 0x0B {
                0x20u8
            } else if i == 0x1A {
                3u8
            } else if 0x1C <= i < 0x20 {
                ((len as int / pow256(i - 0x1C)) % 0x100) as u8
            } else {
                0u8
            },
    )
}

/// The writes that make up the image, in order: each at a byte offset.
pub open spec fn image_plan() -> Seq<(u64, Seq<u8>)> {
    let l = spec_layout();
    let fat1 = IMAGE_RESERVED * IMAGE_SECTOR;
    let fat_bytes = l.fat_sectors * IMAGE_SECTOR;
    let data = l.first_data_sector * IMAGE_SECTOR;
    seq![
        (0u64, boot_sector()),
        (IMAGE_SECTOR, fsinfo_sector(0xFFFF_FFFF, 2)),
        ((6 * IMAGE_SECTOR) as u64, boot_sector()),
        (fat1 as u64, fat_table(l.fat_sectors as nat)),
        ((fat1 + fat_bytes) as u64, fat_table(l.fat_sectors as nat)),
        (data as u64, root_cluster(readme_text().len() as u32)),
        ((data + IMAGE_SPC * IMAGE_SECTOR) as u64, readme_text()),
        ((fat1 + 3 * 4) as u64, eoc_entry()),
        ((fat1 + 3 * 4 + fat_bytes) as u64, eoc_entry()),
        (IMAGE_SECTOR, fsinfo_sector((l.total_clusters - 2) as u32, 5)),
    ]
}

/// The views of a list of writes.
pub open spec fn plan_view(v: Seq<(u64, Vec<u8>)>) -> Seq<(u64, Seq<u8>)> {
    v.map_values(|w: (u64, Vec<u8>)| (w.0, w.1@))
}

/// Builds the boot sector.
fn make_boot_sector(l: &ImageLayout) -> (b: Vec<u8>)
    requires
        *l == spec_layout(),
        l.total_sectors == 131072,
        l.fat_sectors == 128,
    ensures
        b@ == boot_sector(),
{
    let mut b = vec![0u8; 512];
    b.set(0, 0xEB);
    b.set(1, 0x58);
    b.set(2, 0x90);
    b.set(3, 0x52);
    b.set(4, 0x4F);
    b.set(5, 0x53);
    b.set(6, 0x20);
    b.set(7, 0x20);
    b.set(8, 0x20);
    b.set(9, 0x20);
    b.set(10, 0x20);
    wr_u16(&mut b, 0x0B, IMAGE_SECTOR as u16);
    b.set(0x0D, IMAGE_SPC);
    wr_u16(&mut b, 0x0E, IMAGE_RESERVED);
    b.set(0x10, IMAGE_FATS);
    wr_u16(&mut b, 0x11, 0);
    wr_u16(&mut b, 0x13, 0);
    b.set(0x15, 0xF8);
    wr_u16(&mut b, 0x16, 0);
    wr_u16(&mut b, 0x18, 32);
    wr_u16(&mut b, 0x1A, 64);
    wr_u32(&mut b, 0x1C, 0);
    wr_u32(&mut b, 0x20, l.total_sectors as u32);
    wr_u32(&mut b, 0x24, l.fat_sectors);
    wr_u16(&mut b, 0x28, 0);
    wr_u16(&mut b, 0x2A, 0);
    wr_u32(&mut b, 0x2C, 2);
    wr_u16(&mut b, 0x30, 1);
    wr_u16(&mut b, 0x32, 6);
    b.set(0x40, 0x80);
    b.set(0x42, 0x29);
    wr_u32(&mut b, 0x43, 0x12345678);
    let label: [u8; 11] = [0x52, 0x4F, 0x53, 0x20, 0x44, 0x49, 0x53, 0x4B, 0x20, 0x20, 0x20];
    let mut k: usize = 0;
    while k < 11
        invariant
            b@.len() == 512,
            k <= 11,
            label@ == seq![0x52u8, 0x4F, 0x53, 0x20, 0x44, 0x49, 0x53, 0x4B, 0x20, 0x20, 0x20],
            forall|j: int| 0x47 <= j < 0x47 + k ==> b@[j] == label@[j - 0x47],
            forall|j: int| 0 <= j < 0x47 ==> b@[j] == boot_byte(j),
            forall|j: int| 0x47 + k <= j < 512 ==> b@[j] == 0,
        decreases 11 - k,
    {
        b.set(0x47 + k, label[k]);
        k += 1;
    }
    let fstype: [u8; 8] = [0x46, 0x41, 0x54, 0x33, 0x32, 0x20, 0x20, 0x20];
    let mut k: usize = 0;
    while k < 8
        invariant
            b@.len() == 512,
            k <= 8,
            fstype@ == seq![0x46u8, 0x41, 0x54, 0x33, 0x32, 0x20, 0x20, 0x20],
            forall|j: int| 0 <= j < 0x52 ==> b@[j] == boot_byte(j),
            forall|j: int| 0x52 <= j < 0x52 + k ==> b@[j] == fstype@[j - 0x52],
            forall|j: int| 0x52 + k <= j < 512 ==> b@[j] == 0,
        decreases 8 - k,
    {
        b.set(0x52 + k, fstype[k]);
        k += 1;
    }
    b.set(0x1FE, 0x55);
    b.set(0x1FF, 0xAA);
    assert(b@ =~= boot_sector());
    b
}

/// Builds the FSInfo sector.
fn make_fsinfo(free: u32, next: u32) -> (b: Vec<u8>)
    ensures
        b@ == fsinfo_sector(free, next),
{
    let mut b = vec![0u8; 512];
    b.set(0, 0x52);
    b.set(1, 0x52);
    b.set(2, 0x61);
    b.set(3, 0x41);
    wr_u32(&mut b, 0x1E4, free);
    wr_u32(&mut b, 0x1E8, next);
    b.set(0x1FC, 0x55);
    b.set(0x1FD, 0xAA);
    assert(b@ =~= fsinfo_sector(free, next));
    b
}

/// Builds a FAT of `sectors` sectors.
fn make_fat(sectors: u32) -> (b: Vec<u8>)
    requires
        sectors >= 1,
        sectors as int * 512 <= usize::MAX,
    ensures
        b@ == fat_table(sectors as nat),
{
    let n = sectors as usize * 512;
    let mut b = vec![0u8; n];
    let head: [u8; 12] = [0xF8, 0xFF, 0xFF, 0x0F, 0xFF, 0xFF, 0xFF, 0x0F, 0xFF, 0xFF, 0xFF, 0x0F];
    let mut k: usize = 0;
    while k < 12
        invariant
            b@.len() == n,
            n >= 512,
            k <= 12,
            head@ == seq![0xF8u8, 0xFF, 0xFF, 0x0F, 0xFF, 0xFF, 0xFF, 0x0F, 0xFF, 0xFF, 0xFF, 0x0F],
            forall|j: int| 0 <= j < k ==> b@[j] == head@[j],
            forall|j: int| k <= j < n ==> b@[j] == 0,
        decreases 12 - k,
    {
        b.set(k, head[k]);
        k += 1;
    }
    assert(b@ =~= fat_table(sectors as nat));
    b
}

/// Builds the root directory's cluster.
fn make_root(len: u32) -> (b: Vec<u8>)
    ensures
        b@ == root_cluster(len),
{
    let mut b = vec![0u8; 4096];
    let name: [u8; 11] = [0x52, 0x45, 0x41, 0x44, 0x4D, 0x45, 0x20, 0x20, 0x54, 0x58, 0x54];
    let mut k: usize = 0;
    while k < 11
        invariant
            b@.len() == 4096,
            k <= 11,
            name@ == seq![0x52u8, 0x45, 0x41, 0x44, 0x4D, 0x45, 0x20, 0x20, 0x54, 0x58, 0x54],
            forall|j: int| 0 <= j < k ==> b@[j] == name@[j],
            forall|j: int| k <= j < 4096 ==> b@[j] == 0,
        decreases 11 - k,
    {
        b.set(k, name[k]);
        k += 1;
    }
    b.set(0x0B, 0x20);
    wr_u16(&mut b, 0x1A, 3);
    wr_u16(&mut b, 0x14, 0);
    wr_u32(&mut b, 0x1C, len);
    assert(b@ =~= root_cluster(len));
    b
}

/// The writes that build the runner's 64 MiB FAT32 disk image: boot
/// sector, FSInfo, backup boot sector, both FATs, the root directory with
/// one file, the file's data, the file's end-of-chain entries and the
/// final FSInfo, each at its byte offset.
pub fn image_writes() -> (w: Vec<(u64, Vec<u8>)>)
    ensures
        plan_view(w@) == image_plan(),
{
    let l = image_layout();
    let ss = IMAGE_SECTOR;
    let content = "ROS Disk Test - FAT32 driver is working!\nHello from the kernel!\n".as_bytes();
    let content_len = content.len();
    let fat1 = IMAGE_RESERVED as u64 * ss;
    let fat_bytes = l.fat_sectors as u64 * ss;
    let data = l.first_data_sector * ss;
    let mut w: Vec<(u64, Vec<u8>)> = Vec::new();
    w.push((0, make_boot_sector(&l)));
    w.push((ss, make_fsinfo(0xFFFF_FFFF, 2)));
    w.push((6 * ss, make_boot_sector(&l)));
    w.push((fat1, make_fat(l.fat_sectors)));
    w.push((fat1 + fat_bytes, make_fat(l.fat_sectors)));
    w.push((data, make_root(content_len as u32)));
    w.push((data + IMAGE_SPC as u64 * ss, vstd::slice::slice_to_vec(content)));
    let eoc: Vec<u8> = vec![0xFF, 0xFF, 0xFF, 0x0F];
    let off = fat1 + 3 * 4;
    w.push((off, eoc));
    let eoc2: Vec<u8> = vec![0xFF, 0xFF, 0xFF, 0x0F];
    w.push((off + fat_bytes, eoc2));
    w.push((ss, make_fsinfo((l.total_clusters - 2) as u32, 5)));
    assert(plan_view(w@) =~= image_plan());
    w
}

/// The geometry the driver finds on the image.
pub open spec fn image_geometry() -> Geometry {
    Geometry {
        partition_lba: 0,
        sectors_per_cluster: 8,
        reserved_sectors: 32,
        fats: 2,
        sectors_per_fat: 128,
        root_cluster: 2,
        first_data_sector: 288,
    }
}

/// The driver mounts the image the runner builds: its boot sector, which
/// no later write touches, holds an unpartitioned FAT32 volume whose data
/// area starts right after the two FATs, where the root directory's
/// cluster is written.
pub proof fn law_image_mounts()
    ensures
        spec_locate_bpb(boot_sector()) == Ok::<Option<u32>, Fat32Error>(None),
        spec_mount(boot_sector(), None) == Ok::<Geometry, crate::fat32::Fat32Error>(image_geometry()),
        forall|k: int| 1 <= k < image_plan().len() ==> #[trigger] image_plan()[k].0 >= 512,
        image_plan()[5].0 == image_geometry().cluster_lba(2) * 512,
{
    let s = boot_sector();
    assert(s[510] == 0x55 && s[511] == 0xAA);
    assert(s[450] == 0 && s[466] == 0 && s[482] == 0 && s[498] == 0);
    assert(le16(s, 0x0B) == 512);
    assert(le16(s, 0x0E) == 32);
    assert(le16(s, 0x16) == 0);
    assert(le32(s, 0x24) == 128);
    assert(le32(s, 0x2C) == 2);
    reveal_with_fuel(crate::fat32::first_fat32_slot, 5);
}

/// The entry the image's root directory lists.
pub open spec fn readme_entry() -> DirEntryView {
    DirEntryView {
        name: "README.TXT"@,
        is_dir: false,
        size: readme_text().len() as u32,
        first_cluster: 3,
    }
}

/// The bytes of an ASCII string are its characters, one byte each, and
/// decode back to it.
proof fn lemma_ascii_bytes(s: Seq<char>)
    requires
        vstd::utf8::is_ascii_chars(s),
    ensures
        encode_utf8(s).len() == s.len(),
        forall|i: int| 0 <= i < s.len() ==> #[trigger] encode_utf8(s)[i] == s[i] as u8,
        valid_utf8(encode_utf8(s)),
        decode_utf8(encode_utf8(s)) == s,
{
    vstd::utf8::is_ascii_chars_encode_utf8(s);
    vstd::utf8::encode_utf8_valid_utf8(s);
    vstd::utf8::encode_utf8_decode_utf8(s);
}

/// Bytes with no `sep` among them form a single piece.
proof fn lemma_split_without_sep(b: Seq<u8>, sep: u8)
    requires
        forall|i: int| 0 <= i < b.len() ==> #[trigger] b[i] != sep,
    ensures
        split_on(b, sep) == seq![b],
    decreases b.len(),
{
    if b.len() == 0 {
        assert(b =~= Seq::<u8>::empty());
    } else {
        let p = b.drop_last();
        assert(b[b.len() - 1] != sep);
        assert forall|i: int| 0 <= i < p.len() implies #[trigger] p[i] != sep by {
            assert(p[i] == b[i]);
        }
        lemma_split_without_sep(p, sep);
        assert(p.push(b.last()) =~= b);
        assert(split_on(b, sep) =~= seq![b]);
    }
}

/// The image's root directory lists exactly `README.TXT`, a file of the
/// text's length at cluster 3, and its end record is in that cluster.
pub proof fn law_image_root_listing()
    ensures
        cluster_ends_dir(root_cluster(readme_text().len() as u32)),
        cluster_entries(root_cluster(readme_text().len() as u32)) == seq![readme_entry()],
{
    let len = readme_text().len() as u32;
    let buf = root_cluster(len);
    assert(buf.len() / 32 == 128);
    assert(buf[0] == 0x52);
    assert(buf[32] == 0);
    assert(end_record(buf, 1, 128) == 1);
    assert(end_record(buf, 0, 128) == 1);
    assert(buf[0x0B] == 0x20);
    assert(0x20u8 & 0x0Fu8 != 0x0Fu8 && 0x20u8 & 0x08u8 == 0 && 0x20u8 & 0x10u8 == 0) by (bit_vector);
    assert(records_entries(buf, 0) =~= Seq::<DirEntryView>::empty());
    // the name and extension fields
    let nm = buf.subrange(0, 8);
    let ex = buf.subrange(8, 11);
    let six = seq![0x52u8, 0x45, 0x41, 0x44, 0x4D, 0x45];
    let txt = seq![0x54u8, 0x58, 0x54];
    assert(nm.drop_last() =~= six.push(0x20));
    assert(nm.drop_last().drop_last() =~= six);
    assert(six.last() == 0x45);
    assert(spec_trim_trailing_spaces(six) == six);
    assert(six.push(0x20u8).last() == 0x20);
    assert(spec_trim_trailing_spaces(six.push(0x20u8)) == spec_trim_trailing_spaces(six));
    assert(nm.len() == 8 && nm.last() == 0x20);
    assert(spec_trim_trailing_spaces(nm) == spec_trim_trailing_spaces(nm.drop_last()));
    assert(spec_trim_trailing_spaces(nm) == six);
    assert(ex =~= txt);
    assert(txt.last() == 0x54);
    assert(spec_trim_trailing_spaces(txt) == txt);
    reveal_strlit("README");
    reveal_strlit("TXT");
    reveal_strlit("README.TXT");
    lemma_ascii_bytes("README"@);
    lemma_ascii_bytes("TXT"@);
    assert(encode_utf8("README"@) =~= six);
    assert(encode_utf8("TXT"@) =~= txt);
    assert(crate::fat32::name_part(nm) == "README"@);
    assert(crate::fat32::name_part(ex) == "TXT"@);
    assert("README"@ + seq!['.'] + "TXT"@ =~= "README.TXT"@);
    // size and first cluster
    assert(le32(buf, 0x1C) == len) by {
        assert(buf[0x1C] == (len % 0x100) as u8);
        assert(buf[0x1D] == ((len / 0x100) % 0x100) as u8);
        assert(buf[0x1E] == ((len / 0x1_0000) % 0x100) as u8);
        assert(buf[0x1F] == ((len / 0x100_0000) % 0x100) as u8);
        assert((len % 0x100) + 0x100 * ((len / 0x100) % 0x100) + 0x1_0000 * ((len / 0x1_0000)
            % 0x100) + 0x100_0000 * ((len / 0x100_0000) % 0x100) == len) by (nonlinear_arith);
    }
    assert(le16(buf, 0x14) == 0);
    assert(le16(buf, 0x1A) == 3);
    assert(crate::fat32::record_entry(buf, 0) == readme_entry());
    assert(records_entries(buf, 1) =~= seq![readme_entry()]);
}

/// Looking paths up in the image's root directory: `/README.TXT` names the
/// file, which is then read from cluster 3; names are compared exactly, so
/// `readme.txt` is not found; and `README.TXT/` asks for a directory where
/// there is a file.
pub proof fn law_image_lookups()
    ensures
        path_components("/README.TXT".spec_bytes()) == seq!["README.TXT".spec_bytes()],
        spec_open_step(seq![readme_entry()], "README.TXT".spec_bytes(), true) == (OpenStep::ReadFile {
            first_cluster: 3,
            size: readme_text().len() as u32,
        }),
        path_components("readme.txt".spec_bytes()) == seq!["readme.txt".spec_bytes()],
        spec_open_step(seq![readme_entry()], "readme.txt".spec_bytes(), true) == OpenStep::Failed(
            Fat32Error::NotFound,
        ),
        path_components("README.TXT/".spec_bytes()) == seq![
            "README.TXT".spec_bytes(),
            Seq::<u8>::empty(),
        ],
        spec_open_step(seq![readme_entry()], "README.TXT".spec_bytes(), false)
            == OpenStep::Failed(Fat32Error::NotADirectory),
{
    reveal_strlit("README.TXT");
    reveal_strlit("/README.TXT");
    reveal_strlit("readme.txt");
    reveal_strlit("README.TXT/");
    lemma_ascii_bytes("README.TXT"@);
    lemma_ascii_bytes("/README.TXT"@);
    lemma_ascii_bytes("readme.txt"@);
    lemma_ascii_bytes("README.TXT/"@);
    let up = "README.TXT".spec_bytes();
    let lo = "readme.txt".spec_bytes();
    let sl = "/README.TXT".spec_bytes();
    let tr = "README.TXT/".spec_bytes();
    assert(sl.drop_first() =~= up);
    assert(up[0] != 0x2F);
    assert(trim_leading_slashes(up) == up);
    assert(trim_leading_slashes(sl) == up);
    lemma_split_without_sep(up, 0x2F);
    assert(lo[0] != 0x2F);
    assert(trim_leading_slashes(lo) == lo);
    lemma_split_without_sep(lo, 0x2F);
    assert(tr[0] != 0x2F);
    assert(trim_leading_slashes(tr) == tr);
    assert(tr.drop_last() =~= up);
    assert(split_on(tr, 0x2F) =~= seq![up, Seq::<u8>::empty()]);
    let es = seq![readme_entry()];
    assert(first_named(es, up, 0) == Some(0int));
    assert(lo[0] != up[0]);
    assert(encode_utf8(es[0].name) != lo);
    assert(first_named(es, lo, 1) is None);
    assert(first_named(es, lo, 0) is None);
}

/// Reading `README.TXT` back from the image gives the text the runner
/// wrote: the text is written at the first sector of cluster 3, the FAT
/// entry written for cluster 3 ends its chain, and reading that one
/// cluster (the text, then the zeros of the fresh image) into a file of
/// the text's length gives the text.
pub proof fn law_image_file_reads_back()
    ensures
        image_plan()[6].0 == image_geometry().cluster_lba(3) * 512,
        image_plan()[6].1 == readme_text(),
        image_plan()[7].0 == image_geometry().fat_sector(3) * 512 + (3 * 4) % 512,
        le32(image_plan()[7].1, 0) & 0x0FFF_FFFF >= EOC_MARK,
        readme_text().len() <= 8 * 512,
        take_all(
            Seq::new(readme_text().len(), |i: int| 0u8),
            0,
            seq![readme_text() + Seq::new((4096 - readme_text().len()) as nat, |i: int| 0u8)],
        ).0 == readme_text(),
{
    reveal_strlit("ROS Disk Test - FAT32 driver is working!\nHello from the kernel!\n");
    lemma_ascii_bytes("ROS Disk Test - FAT32 driver is working!\nHello from the kernel!\n"@);
    let t = readme_text();
    assert(t.len() == 64);
    let c = t + Seq::new((4096 - t.len()) as nat, |i: int| 0u8);
    let bufs = seq![c];
    law_file_read_gives_chain_bytes(t.len(), bufs);
    assert(bufs.drop_last() =~= Seq::<Seq<u8>>::empty());
    assert(chain_bytes(bufs.drop_last()) =~= Seq::<u8>::empty());
    assert(bufs.last() == c);
    assert(chain_bytes(bufs) =~= c);
    assert(c.subrange(0, t.len() as int) =~= t);
    assert(Seq::new((t.len() - t.len()) as nat, |i: int| 0u8) =~= Seq::<u8>::empty());
    assert(t + Seq::<u8>::empty() =~= t);
    assert(0x0FFF_FFFFu32 & 0x0FFF_FFFFu32 == 0x0FFF_FFFFu32) by (bit_vector);
}


/// Byte `i` of a zero-filled disk after the first `k` writes of `plan`:
/// that of the last of them that covers it.
pub open spec fn plan_byte(plan: Seq<(u64, Seq<u8>)>, k: nat, i: int) -> u8
    decreases k,
{
    if k == 0 || k > plan.len() {
        0
    } else {
        let w = plan[k - 1];
        if w.0 <= i < w.0 + w.1.len() {
            w.1[i - w.0]
        } else {
            plan_byte(plan, (k - 1) as nat, i)
        }
    }
}

/// The disk the runner creates: `IMAGE_BYTES` zero bytes, then every write
/// of the plan in order.
pub open spec fn image_disk() -> Seq<u8> {
    Seq::new(IMAGE_BYTES as nat, |i: int| plan_byte(image_plan(), image_plan().len(), i))
}

/// The layout's numbers.
proof fn lemma_layout()
    ensures
        spec_layout() == (ImageLayout {
            total_sectors: 131072,
            total_clusters: 16380,
            fat_sectors: 128,
            first_data_sector: 288,
        }),
{
    assert(IMAGE_BYTES / IMAGE_SECTOR == 131072) by (nonlinear_arith);
    assert((131072 - 32) / 8int == 16380) by (nonlinear_arith);
    assert(((16380 + 2) * 4 + 512 - 1) / 512int == 128) by (nonlinear_arith);
}

/// Where each write of the plan goes and how long it is.
proof fn lemma_plan_shape()
    ensures
        image_plan().len() == 10,
        image_plan()[0] == (0u64, boot_sector()),
        image_plan()[1].0 == 512 && image_plan()[1].1.len() == 512,
        image_plan()[2].0 == 3072 && image_plan()[2].1.len() == 512,
        image_plan()[3] == (16384u64, fat_table(128)),
        image_plan()[4].0 == 81920 && image_plan()[4].1.len() == 65536,
        image_plan()[5] == (147456u64, root_cluster(64)),
        image_plan()[6] == (151552u64, readme_text()),
        image_plan()[7] == (16396u64, eoc_entry()),
        image_plan()[8].0 == 81932 && image_plan()[8].1.len() == 4,
        image_plan()[9].0 == 512 && image_plan()[9].1.len() == 512,
        readme_text().len() == 64,
{
    reveal_strlit("ROS Disk Test - FAT32 driver is working!\nHello from the kernel!\n");
    lemma_ascii_bytes("ROS Disk Test - FAT32 driver is working!\nHello from the kernel!\n"@);
    lemma_layout();
}

/// The bytes of the image that mounting, listing the root directory and
/// reading `README.TXT` look at.
proof fn lemma_image_regions()
    ensures
        image_disk().len() == 0x400_0000,
        forall|i: int| 0 <= i < 512 ==> #[trigger] image_disk()[i] == boot_sector()[i],
        forall|i: int| 16396 <= i < 16400 ==> #[trigger] image_disk()[i] == eoc_entry()[i - 16396],
        forall|i: int|
            147456 <= i < 151552 ==> #[trigger] image_disk()[i] == root_cluster(64)[i - 147456],
        forall|i: int| 151552 <= i < 151616 ==> #[trigger] image_disk()[i] == readme_text()[i - 151552],
        forall|i: int| 151616 <= i < 155648 ==> #[trigger] image_disk()[i] == 0,
{
    lemma_plan_shape();
    let p = image_plan();
    assert forall|i: int| 0 <= i < 512 implies #[trigger] image_disk()[i] == boot_sector()[i] by {
        reveal_with_fuel(plan_byte, 11);
    }
    assert forall|i: int| 16396 <= i < 16400 implies #[trigger] image_disk()[i] == eoc_entry()[i
        - 16396] by {
        reveal_with_fuel(plan_byte, 4);
    }
    assert forall|i: int| 147456 <= i < 151552 implies #[trigger] image_disk()[i] == root_cluster(
        64,
    )[i - 147456] by {
        reveal_with_fuel(plan_byte, 6);
    }
    assert forall|i: int| 151552 <= i < 151616 implies #[trigger] image_disk()[i] == readme_text()[i
        - 151552] by {
        reveal_with_fuel(plan_byte, 5);
    }
    assert forall|i: int| 151616 <= i < 155648 implies #[trigger] image_disk()[i] == 0 by {
        reveal_with_fuel(plan_byte, 11);
    }
}


/// The sectors of the image that the driver reads to mount it, list its
/// root directory and read `README.TXT`.
proof fn lemma_image_reads()
    ensures
        disk_read(image_disk(), 0, 1) == Some(boot_sector()),
        disk_cluster(image_disk(), image_geometry(), 2) == Some(root_cluster(64)),
        disk_cluster(image_disk(), image_geometry(), 3) == Some(
            readme_text() + Seq::new(4032, |i: int| 0u8),
        ),
        disk_fat_entry(image_disk(), image_geometry(), 3) == Some(0x0FFF_FFFFu32),
        readme_text().len() == 64,
{
    lemma_image_regions();
    lemma_plan_shape();
    let d = image_disk();
    let g = image_geometry();
    assert(d.subrange(0, 512) =~= boot_sector());
    assert(g.cluster_lba(2) == 288);
    assert(d.subrange(147456, 151552) =~= root_cluster(64));
    assert(g.cluster_lba(3) == 296);
    assert(d.subrange(151552, 155648) =~= readme_text() + Seq::new(4032, |i: int| 0u8));
    assert(g.fat_sector(3) == 32);
    let s = d.subrange(16384, 16896);
    assert(s[12] == 0xFF && s[13] == 0xFF && s[14] == 0xFF && s[15] == 0x0F);
    assert(le32(s, 12) == 0x0FFF_FFFF);
    assert(0x0FFF_FFFFu32 & 0x0FFF_FFFFu32 == 0x0FFF_FFFFu32) by (bit_vector);
}

/// The driver mounts the image the runner creates, and listing its root
/// directory gives exactly one entry: `README.TXT`, a file of 64 bytes
/// whose data starts at cluster 3. The listing ends inside the root's
/// first cluster, so it holds whatever bound is put on the chain.
pub proof fn law_image_root_entries(fuel: nat)
    ensures
        spec_mount_disk(image_disk()) == Some(Ok::<Geometry, Fat32Error>(image_geometry())),
        list_dir(image_disk(), image_geometry(), image_geometry().root_cluster, fuel) == Some(
            seq![readme_entry()],
        ),
        readme_entry().name == "README.TXT"@,
        !readme_entry().is_dir,
        readme_entry().size == 64,
        readme_entry().first_cluster == 3,
{
    lemma_image_reads();
    law_image_mounts();
    law_image_root_listing();
}

/// Opening files on the image the runner creates, once mounted:
/// `/README.TXT` gives back the text the runner wrote; names are compared
/// exactly, so `readme.txt` is not found; and `README.TXT/` asks for a
/// directory where there is a file. Reading the file takes one cluster, so
/// any bound of at least one step on the walk gives these outcomes.
pub proof fn law_image_open_file(fuel: nat)
    requires
        fuel >= 1,
    ensures
        spec_mount_disk(image_disk()) == Some(Ok::<Geometry, Fat32Error>(image_geometry())),
        spec_open_file(image_disk(), image_geometry(), "/README.TXT".spec_bytes(), fuel) == Some(
            Ok::<Seq<u8>, Fat32Error>(readme_text()),
        ),
        spec_open_file(image_disk(), image_geometry(), "readme.txt".spec_bytes(), fuel) == Some(
            Err::<Seq<u8>, Fat32Error>(Fat32Error::NotFound),
        ),
        spec_open_file(image_disk(), image_geometry(), "README.TXT/".spec_bytes(), fuel) == Some(
            Err::<Seq<u8>, Fat32Error>(Fat32Error::NotADirectory),
        ),
{
    law_image_root_entries(fuel);
    law_image_lookups();
    lemma_image_reads();
    reveal_strlit("/README.TXT");
    reveal_strlit("readme.txt");
    reveal_strlit("README.TXT/");
    lemma_ascii_bytes("/README.TXT"@);
    lemma_ascii_bytes("readme.txt"@);
    lemma_ascii_bytes("README.TXT/"@);
    let d = image_disk();
    let g = image_geometry();
    let t = readme_text();
    let z = Seq::new(64, |j: int| 0u8);
    let c = t + Seq::new(4032, |i: int| 0u8);
    assert(z.subrange(0, 0) + c.subrange(0, 64) + z.subrange(64, 64) =~= t);
    assert(take_step(z, 0, c) == (t, 64nat));
    assert(0x0FFF_FFFFu32 >= EOC_MARK);
    assert(file_read(d, g, 0x0FFF_FFFF, t, 64, (fuel - 1) as nat) == Some(t));
    assert(file_read(d, g, 3, z, 0, fuel) == Some(t));
    assert(trim_leading_slashes("/README.TXT".spec_bytes()).len() != 0) by {
        let sl = "/README.TXT".spec_bytes();
        assert(sl[0] == 0x2F && sl[1] != 0x2F);
        assert(trim_leading_slashes(sl.drop_first()) == sl.drop_first());
    }
    assert(trim_leading_slashes("readme.txt".spec_bytes()).len() != 0) by {
        if trim_leading_slashes("readme.txt".spec_bytes()).len() == 0 {
            assert(trim_leading_slashes("readme.txt".spec_bytes()) =~= Seq::<u8>::empty());
            assert(split_on(Seq::<u8>::empty(), 0x2F) == seq![Seq::<u8>::empty()]);
        }
    }
    assert(trim_leading_slashes("README.TXT/".spec_bytes()).len() != 0) by {
        if trim_leading_slashes("README.TXT/".spec_bytes()).len() == 0 {
            assert(trim_leading_slashes("README.TXT/".spec_bytes()) =~= Seq::<u8>::empty());
            assert(split_on(Seq::<u8>::empty(), 0x2F) == seq![Seq::<u8>::empty()]);
        }
    }
}

} // verus!
