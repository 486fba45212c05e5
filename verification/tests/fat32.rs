use ros_kernel::ata::Drive;
use ros_kernel::fat32::{
    bpb_fits, check_bpb_signature, find_init_elf, fat_entry_from_sector, find_fat32_partition, is_eoc, locate_bpb,
    mount_fits, parse_name, split_path, volume_label_from_bpb, DirEntry, DirWalk, Fat32, Fat32Error, FileRead,
    OpenStep,
};

/// A disk image in memory.
struct Disk {
    img: Vec<u8>,
}

impl Disk {
    fn read(&self, lba: u32, buf: &mut [u8]) {
        let start = lba as usize * 512;
        buf.copy_from_slice(&self.img[start..start + buf.len()]);
    }
}

fn w16(b: &mut [u8], off: usize, v: u16) {
    b[off..off + 2].copy_from_slice(&v.to_le_bytes());
}

fn w32(b: &mut [u8], off: usize, v: u32) {
    b[off..off + 4].copy_from_slice(&v.to_le_bytes());
}

fn dir_record(name: &[u8; 8], ext: &[u8; 3], attr: u8, cluster: u32, size: u32) -> [u8; 32] {
    let mut r = [0u8; 32];
    r[0..8].copy_from_slice(name);
    r[8..11].copy_from_slice(ext);
    r[0x0B] = attr;
    w16(&mut r, 0x14, (cluster >> 16) as u16);
    w16(&mut r, 0x1A, (cluster & 0xFFFF) as u16);
    w32(&mut r, 0x1C, size);
    r
}

const README: &[u8] = b"ROS Disk Test - FAT32 driver is working!\nHello from the kernel!\n";

/// Builds a small FAT32 volume at `part_lba`: one sector per cluster, 32
/// reserved sectors, two FATs of one sector.
fn volume(img: &mut Vec<u8>, part_lba: u32) {
    let base = part_lba as usize * 512;
    let total = base + 64 * 512;
    if img.len() < total {
        img.resize(total, 0);
    }
    let bpb = &mut img[base..base + 512];
    bpb[0] = 0xEB;
    w16(bpb, 0x0B, 512);
    bpb[0x0D] = 1;
    w16(bpb, 0x0E, 32);
    bpb[0x10] = 2;
    w16(bpb, 0x16, 0);
    w32(bpb, 0x20, 64);
    w32(bpb, 0x24, 1);
    w32(bpb, 0x2C, 2);
    bpb[0x42] = 0x29;
    bpb[0x47..0x52].copy_from_slice(b"ROS DISK   ");
    bpb[510] = 0x55;
    bpb[511] = 0xAA;
    // FAT
    let fat = base + 32 * 512;
    let eoc = 0x0FFF_FFFFu32;
    w32(&mut img[fat..], 0, 0x0FFF_FFF8);
    w32(&mut img[fat..], 4, eoc);
    w32(&mut img[fat..], 2 * 4, eoc);
    w32(&mut img[fat..], 3 * 4, eoc);
    w32(&mut img[fat..], 4 * 4, eoc);
    w32(&mut img[fat..], 5 * 4, 6);
    w32(&mut img[fat..], 6 * 4, eoc);
    // data: first data sector = 32 + 2 * 1 = 34
    let data = base + 34 * 512;
    let cl = |c: usize| data + (c - 2) * 512;
    let root = cl(2);
    img[root..root + 32].copy_from_slice(&dir_record(b"ROS DISK", b"   ", 0x08, 0, 0));
    img[root + 32..root + 64].copy_from_slice(&dir_record(b"README  ", b"TXT", 0x20, 3, README.len() as u32));
    let mut deleted = dir_record(b"OLD     ", b"TXT", 0x20, 9, 1);
    deleted[0] = 0xE5;
    img[root + 64..root + 96].copy_from_slice(&deleted);
    img[root + 96..root + 128].copy_from_slice(&dir_record(b"LONGNAME", b"   ", 0x0F, 0, 0));
    img[root + 128..root + 160].copy_from_slice(&dir_record(b"SUB     ", b"   ", 0x10, 4, 0));
    // end marker at root + 160 (zero), then something that must not be listed
    img[root + 192..root + 224].copy_from_slice(&dir_record(b"GHOST   ", b"   ", 0x20, 3, 1));
    img[cl(3)..cl(3) + README.len()].copy_from_slice(README);
    let sub = cl(4);
    img[sub..sub + 32].copy_from_slice(&dir_record(b"BIG     ", b"BIN", 0x20, 5, 600));
    for i in 0..512 {
        img[cl(5) + i] = (i % 251) as u8;
    }
    for i in 0..512 {
        img[cl(6) + i] = 0xAB;
    }
}

fn unpartitioned_disk() -> Disk {
    let mut img = Vec::new();
    volume(&mut img, 0);
    Disk { img }
}

fn partitioned_disk() -> Disk {
    let mut img = vec![0u8; 512];
    // second MBR slot: a FAT32 (LBA) partition at sector 1
    img[446 + 16 + 4] = 0x0C;
    w32(&mut img, 446 + 16 + 8, 1);
    img[510] = 0x55;
    img[511] = 0xAA;
    volume(&mut img, 1);
    Disk { img }
}

fn mount(disk: &Disk) -> Result<Fat32, &'static str> {
    let mut s0 = [0u8; 512];
    disk.read(0, &mut s0);
    let mut part = [0u8; 512];
    let part = match locate_bpb(&s0) {
        Ok(Some(lba)) => {
            disk.read(lba, &mut part);
            Some(&part)
        }
        _ => None,
    };
    assert!(mount_fits(&s0, part));
    Fat32::new(Drive::new_master(), &s0, part).map_err(|e| e.message())
}

fn mount_by_parts(disk: &Disk) -> Result<Fat32, &'static str> {
    let mut s0 = [0u8; 512];
    disk.read(0, &mut s0);
    let part = locate_bpb(&s0).map_err(|e| e.message())?;
    let bpb = match part {
        Some(lba) => {
            let mut b = [0u8; 512];
            disk.read(lba, &mut b);
            check_bpb_signature(&b).map_err(|e| e.message())?;
            b
        }
        None => s0,
    };
    let lba = part.unwrap_or(0);
    assert!(bpb_fits(&bpb, lba));
    Fat32::parse_bpb(Drive::new_master(), bpb, lba).map_err(|e| e.message())
}

fn read_fat_entry(fs: &Fat32, disk: &Disk, cluster: u32) -> u32 {
    assert!(fs.fat_addressable(cluster));
    let (lba, off) = fs.fat_entry_location(cluster);
    let mut sector = [0u8; 512];
    disk.read(lba, &mut sector);
    let v = fs.read_fat_entry(cluster, &sector);
    assert_eq!(v, fat_entry_from_sector(&sector, off));
    v
}

fn read_cluster(fs: &Fat32, disk: &Disk, cluster: u32, buf: &mut [u8]) -> Result<(), &'static str> {
    assert!(fs.cluster_addressable(cluster));
    let lba = fs.read_cluster(cluster, buf.len()).map_err(|e| e.message())?;
    let size = fs.cluster_byte_size();
    disk.read(lba, &mut buf[..size]);
    Ok(())
}

fn list(fs: &Fat32, disk: &Disk, cluster: u32) -> Vec<DirEntry> {
    walk_dir(fs, disk, fs.read_dir_entries(cluster))
}

fn walk_dir(fs: &Fat32, disk: &Disk, mut walk: DirWalk) -> Vec<DirEntry> {
    while !walk.is_done() {
        let mut buf = vec![0u8; fs.cluster_byte_size()];
        read_cluster(fs, disk, walk.cluster(), &mut buf).unwrap();
        walk.take_cluster(&buf);
        if walk.is_done() {
            break;
        }
        let next = read_fat_entry(fs, disk, walk.cluster());
        walk.advance(next);
    }
    walk.into_entries()
}

fn read_file(fs: &Fat32, disk: &Disk, first: u32, size: u32) -> Vec<u8> {
    let mut r = fs.read_file_data(first, size);
    while r.wants_cluster() {
        let mut buf = vec![0u8; fs.cluster_byte_size()];
        read_cluster(fs, disk, r.cluster(), &mut buf).unwrap();
        r.take_cluster(&buf);
        let next = read_fat_entry(fs, disk, r.cluster());
        r.advance(next);
    }
    r.into_data()
}

fn open_file(fs: &Fat32, disk: &Disk, path: &str) -> Result<Vec<u8>, &'static str> {
    let mut walk = fs.open_file(path).map_err(|e| e.message())?;
    loop {
        let entries = list(fs, disk, walk.cluster());
        match walk.step(&entries) {
            OpenStep::Descend => {}
            OpenStep::ReadFile { first_cluster, size } => return Ok(read_file(fs, disk, first_cluster, size)),
            OpenStep::Failed(e) => return Err(e.message()),
        }
    }
}

#[test]
fn fat32_mounts_unpartitioned_volume() {
    let disk = unpartitioned_disk();
    let fs = mount(&disk).unwrap();
    let g = fs.geometry();
    assert_eq!(g.partition_lba, 0);
    assert_eq!(g.first_data_sector, 34);
    assert_eq!(g.root_cluster, 2);
    assert_eq!(fs.cluster_to_lba(2), 34);
    assert_eq!(fs.cluster_to_lba(5), 37);
    assert_eq!(fs.cluster_byte_size(), 512);
}

#[test]
fn fat32_mounts_partitioned_volume() {
    let disk = partitioned_disk();
    let mut s0 = [0u8; 512];
    disk.read(0, &mut s0);
    assert_eq!(find_fat32_partition(&s0), Some(1));
    let fs = mount(&disk).unwrap();
    assert_eq!(fs.geometry().partition_lba, 1);
    assert_eq!(fs.geometry().first_data_sector, 35);
    assert_eq!(open_file(&fs, &disk, "/README.TXT").unwrap(), README.to_vec());
}

#[test]
fn fat32_root_listing_skips_label_deleted_and_long_names() {
    let disk = unpartitioned_disk();
    let fs = mount(&disk).unwrap();
    let entries = walk_dir(&fs, &disk, fs.root_entries());
    assert_eq!(entries.len(), 2);
    assert_eq!(entries[0].name, "README.TXT");
    assert!(!entries[0].is_dir);
    assert_eq!(entries[0].size, README.len() as u32);
    assert_eq!(entries[0].first_cluster, 3);
    assert_eq!(entries[1].name, "SUB");
    assert!(entries[1].is_dir);
    assert_eq!(entries[1].first_cluster, 4);
}

#[test]
fn fat32_reads_files_across_clusters() {
    let disk = unpartitioned_disk();
    let fs = mount(&disk).unwrap();
    let data = open_file(&fs, &disk, "SUB/BIG.BIN").unwrap();
    assert_eq!(data.len(), 600);
    for i in 0..512 {
        assert_eq!(data[i], (i % 251) as u8);
    }
    for i in 512..600 {
        assert_eq!(data[i], 0xAB);
    }
}

#[test]
fn fat32_open_file_errors() {
    let disk = unpartitioned_disk();
    let fs = mount(&disk).unwrap();
    assert_eq!(open_file(&fs, &disk, "///"), Err("fat32: empty path"));
    assert_eq!(open_file(&fs, &disk, "SUB"), Err("fat32: path is a directory, not a file"));
    assert_eq!(
        open_file(&fs, &disk, "README.TXT/X"),
        Err("fat32: intermediate path component is not a directory")
    );
    assert_eq!(open_file(&fs, &disk, "NOPE.TXT"), Err("fat32: path component not found"));
    assert_eq!(open_file(&fs, &disk, "GHOST"), Err("fat32: path component not found"));
    assert_eq!(open_file(&fs, &disk, "readme.txt"), Err("fat32: path component not found"));
}

#[test]
fn fat32_volume_label() {
    let disk = unpartitioned_disk();
    let mut b = [0u8; 512];
    disk.read(0, &mut b);
    assert_eq!(volume_label_from_bpb(&b), Some("ROS DISK".to_string()));
    b[0x42] = 0;
    assert_eq!(volume_label_from_bpb(&b), None);
    b[0x42] = 0x28;
    for i in 0x47..0x52 {
        b[i] = b' ';
    }
    assert_eq!(volume_label_from_bpb(&b), None);
}

#[test]
fn fat32_rejects_missing_signature() {
    let mut disk = unpartitioned_disk();
    disk.img[511] = 0;
    assert_eq!(mount(&disk).err(), Some("fat32: no boot signature at sector 0"));
}

#[test]
fn fat32_rejects_bad_partition_signature() {
    let mut disk = partitioned_disk();
    disk.img[512 + 510] = 0;
    assert_eq!(mount(&disk).err(), Some("fat32: bad BPB signature in partition"));
}

#[test]
fn fat32_rejects_disk_without_fat32() {
    let mut disk = unpartitioned_disk();
    disk.img[0x0B] = 0;
    disk.img[0x0C] = 4;
    assert_eq!(mount(&disk).err(), Some("fat32: no FAT32 partition found"));
}

#[test]
fn fat32_rejects_bad_sector_size_and_cluster_size() {
    let mut disk = partitioned_disk();
    disk.img[512 + 0x0C] = 4;
    assert_eq!(mount(&disk).err(), Some("fat32: unsupported bytes per sector"));
    let mut disk = unpartitioned_disk();
    disk.img[0x0D] = 3;
    assert_eq!(mount(&disk).err(), Some("fat32: invalid sectors per cluster"));
    disk.img[0x0D] = 0;
    assert_eq!(mount(&disk).err(), Some("fat32: invalid sectors per cluster"));
    assert_eq!(Fat32Error::BufferTooSmall.message(), "fat32: buffer too small for cluster");
}

#[test]
fn fat32_small_buffer_is_refused() {
    let disk = unpartitioned_disk();
    let fs = mount(&disk).unwrap();
    assert_eq!(fs.read_cluster(3, 100), Err(Fat32Error::BufferTooSmall));
    assert_eq!(fs.read_cluster(3, 512), Ok(35));
}

#[test]
fn fat32_names_and_chain_ends() {
    assert_eq!(parse_name(b"README  ", b"TXT"), "README.TXT");
    assert_eq!(parse_name(b"KERNEL  ", b"   "), "KERNEL");
    assert_eq!(parse_name(b"        ", b"   "), "");
    assert_eq!(parse_name(b"A\xFF      ", b"TXT"), ".TXT");
    assert_eq!(parse_name(b"BOOT    ", b"\xFF  "), "BOOT");
    assert!(is_eoc(0x0FFF_FFF8));
    assert!(is_eoc(0x0FFF_FFFF));
    assert!(!is_eoc(0x0FFF_FFF7));
    let mut sector = [0u8; 512];
    sector[8..12].copy_from_slice(&[0x34, 0x12, 0x00, 0xF0]);
    assert_eq!(fat_entry_from_sector(&sector, 8), 0x0000_1234);
}

#[test]
fn fat32_fat_entry_location() {
    let disk = partitioned_disk();
    let fs = mount(&disk).unwrap();
    assert_eq!(fs.fat_entry_location(5), (33, 20));
    assert_eq!(fs.fat_entry_location(130), (34, 8));
    assert!(!fs.cluster_addressable(1));
    assert!(fs.cluster_addressable(2));
}

#[test]
fn fat32_mount_steps_agree() {
    for disk in [unpartitioned_disk(), partitioned_disk()] {
        let a = mount(&disk).unwrap().geometry();
        let b = mount_by_parts(&disk).unwrap().geometry();
        assert_eq!(a.partition_lba, b.partition_lba);
        assert_eq!(a.first_data_sector, b.first_data_sector);
        assert_eq!(a.root_cluster, b.root_cluster);
        assert_eq!(a.sectors_per_fat, b.sectors_per_fat);
    }
}

#[test]
fn fat32_label_of_mounted_volume() {
    let disk = partitioned_disk();
    let fs = mount(&disk).unwrap();
    assert_eq!(fs.partition_lba(), 1);
    let mut b = [0u8; 512];
    disk.read(fs.partition_lba(), &mut b);
    assert_eq!(fs.volume_label(&b), Some("ROS DISK".to_string()));
}

#[test]
fn fat32_oversized_geometry_does_not_fit() {
    let mut disk = unpartitioned_disk();
    disk.img[0x10] = 255;
    disk.img[0x16] = 0;
    disk.img[0x17] = 0;
    disk.img[0x24..0x28].copy_from_slice(&0x0200_0000u32.to_le_bytes());
    let mut s0 = [0u8; 512];
    disk.read(0, &mut s0);
    assert!(!mount_fits(&s0, None));
    assert!(!bpb_fits(&s0, 0));
}

fn entry(name: &str, is_dir: bool) -> DirEntry {
    DirEntry { name: name.to_string(), is_dir, size: 1, first_cluster: 5 }
}

#[test]
fn fat32_finds_init_program() {
    let entries = vec![
        entry("README.TXT", false),
        entry("INIT.ELF", true),
        entry("Init.elf", false),
        entry("init.elf", false),
        entry("INIT.ELF", false),
    ];
    assert_eq!(find_init_elf(&entries), Some(3));
    assert_eq!(find_init_elf(&vec![entry("README.TXT", false), entry("INIT.ELF", true)]), None);
    assert_eq!(find_init_elf(&vec![entry("INIT.ELF", false)]), Some(0));
}

#[test]
fn fat32_path_components_rejoin() {
    let parts = split_path(b"//BOOT/SUB//INIT.ELF");
    let names: Vec<&[u8]> = parts.iter().map(|p| p.as_slice()).collect();
    assert_eq!(names, vec![&b"BOOT"[..], b"SUB", b"", b"INIT.ELF"]);
    assert_eq!(names.join(&b'/'), b"BOOT/SUB//INIT.ELF".to_vec());
    assert_eq!(split_path(b"README.TXT"), vec![b"README.TXT".to_vec()]);
    assert_eq!(split_path(b"DIR/"), vec![b"DIR".to_vec(), Vec::new()]);
}

#[test]
fn fat32_file_read_takes_chain_bytes_then_zeros() {
    let mut r = FileRead::new(7, 10);
    assert!(r.wants_cluster());
    r.take_cluster(&[1, 2, 3, 4]);
    r.advance(8);
    assert!(r.wants_cluster());
    r.take_cluster(&[5, 6]);
    r.advance(0x0FFF_FFFF);
    assert!(!r.wants_cluster());
    assert_eq!(r.into_data(), vec![1, 2, 3, 4, 5, 6, 0, 0, 0, 0]);
    let mut full = FileRead::new(7, 3);
    full.take_cluster(&[9, 8, 7, 6, 5]);
    assert!(!full.wants_cluster());
    assert_eq!(full.into_data(), vec![9, 8, 7]);
}

#[test]
fn fat32_chain_follows_fat() {
    let disk = unpartitioned_disk();
    let fs = mount(&disk).unwrap();
    assert_eq!(read_fat_entry(&fs, &disk, 5), 6);
    assert!(is_eoc(read_fat_entry(&fs, &disk, 6)));
    assert!(is_eoc(read_fat_entry(&fs, &disk, 2)));
    assert_eq!(read_fat_entry(&fs, &disk, 9), 0);
}
