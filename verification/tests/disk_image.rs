use ros_kernel::ata::Drive;
use ros_kernel::disk_image::{image_layout, image_writes, IMAGE_BYTES};
use ros_kernel::fat32::{
    fat_entry_from_sector, locate_bpb, mount_fits, DirEntry, DirWalk, Fat32, Fat32Error, FileRead, OpenStep,
};

fn build() -> Vec<u8> {
    let mut img = vec![0u8; IMAGE_BYTES as usize];
    for (off, bytes) in image_writes() {
        let off = off as usize;
        img[off..off + bytes.len()].copy_from_slice(&bytes);
    }
    img
}

fn sector(img: &[u8], lba: u32) -> [u8; 512] {
    let mut s = [0u8; 512];
    let start = lba as usize * 512;
    s.copy_from_slice(&img[start..start + 512]);
    s
}

fn next_cluster(fs: &Fat32, img: &[u8], cluster: u32) -> u32 {
    let (lba, off) = fs.fat_entry_location(cluster);
    fat_entry_from_sector(&sector(img, lba), off)
}

fn cluster_bytes(fs: &Fat32, img: &[u8], cluster: u32) -> Vec<u8> {
    let lba = fs.read_cluster(cluster, fs.cluster_byte_size()).unwrap() as usize;
    img[lba * 512..lba * 512 + fs.cluster_byte_size()].to_vec()
}

fn mount(img: &[u8]) -> Fat32 {
    let s0 = sector(img, 0);
    assert_eq!(locate_bpb(&s0), Ok(None));
    assert!(mount_fits(&s0, None));
    Fat32::new(Drive::new_master(), &s0, None).unwrap()
}

#[test]
fn disk_image_layout() {
    let l = image_layout();
    assert_eq!(l.total_sectors, 131072);
    assert_eq!(l.total_clusters, 16380);
    assert_eq!(l.fat_sectors, 128);
    assert_eq!(l.first_data_sector, 288);
    let w = image_writes();
    assert_eq!(w.len(), 10);
    assert_eq!(w[0].0, 0);
    assert_eq!(w[5].0, 288 * 512);
    assert_eq!(w[6].0, 296 * 512);
}

#[test]
fn disk_image_mounts_and_reads_back() {
    let img = build();
    let fs = mount(&img);
    let g = fs.geometry();
    assert_eq!((g.sectors_per_cluster, g.reserved_sectors, g.fats), (8, 32, 2));
    assert_eq!((g.sectors_per_fat, g.root_cluster, g.first_data_sector), (128, 2, 288));
    let mut walk = fs.root_entries();
    walk.take_cluster(&cluster_bytes(&fs, &img, walk.cluster()));
    assert!(walk.is_done());
    let entries: Vec<DirEntry> = walk.into_entries();
    assert_eq!(entries.len(), 1);
    assert_eq!(entries[0].name, "README.TXT");
    assert_eq!(entries[0].first_cluster, 3);
    let mut r = FileRead::new(entries[0].first_cluster, entries[0].size);
    while r.wants_cluster() {
        r.take_cluster(&cluster_bytes(&fs, &img, r.cluster()));
        let next = next_cluster(&fs, &img, r.cluster());
        r.advance(next);
    }
    assert_eq!(
        r.into_data(),
        b"ROS Disk Test - FAT32 driver is working!\nHello from the kernel!\n".to_vec()
    );
    assert_eq!(fs.volume_label(&sector(&img, 0)), Some("ROS DISK".to_string()));
    assert_eq!(&img[512..516], b"RRaA");
    assert_eq!(u32::from_le_bytes(img[512 + 0x1E4..512 + 0x1E8].try_into().unwrap()), 16378);
    assert_eq!(u32::from_le_bytes(img[512 + 0x1E8..512 + 0x1EC].try_into().unwrap()), 5);
    assert_eq!(&img[6 * 512..7 * 512], &img[0..512]);
}

fn list(fs: &Fat32, img: &[u8], mut walk: DirWalk) -> Vec<DirEntry> {
    loop {
        walk.take_cluster(&cluster_bytes(fs, img, walk.cluster()));
        if walk.is_done() {
            return walk.into_entries();
        }
        let next = next_cluster(fs, img, walk.cluster());
        walk.advance(next);
        if walk.is_done() {
            return walk.into_entries();
        }
    }
}

fn open(fs: &Fat32, img: &[u8], path: &str) -> Result<Vec<u8>, Fat32Error> {
    let mut walk = fs.open_file(path)?;
    loop {
        let entries = list(fs, img, fs.read_dir_entries(walk.cluster()));
        match walk.step(&entries) {
            OpenStep::Descend => {}
            OpenStep::ReadFile { first_cluster, size } => {
                let mut r = fs.read_file_data(first_cluster, size);
                while r.wants_cluster() {
                    r.take_cluster(&cluster_bytes(fs, img, r.cluster()));
                    let next = next_cluster(fs, img, r.cluster());
                    r.advance(next);
                }
                return Ok(r.into_data());
            }
            OpenStep::Failed(e) => return Err(e),
        }
    }
}

#[test]
fn disk_image_root_entries_are_the_readme() {
    let img = build();
    let fs = mount(&img);
    let entries = list(&fs, &img, fs.root_entries());
    assert_eq!(entries.len(), 1);
    assert_eq!(entries[0].name, "README.TXT");
    assert!(!entries[0].is_dir);
    assert_eq!(entries[0].size, 64);
    assert_eq!(entries[0].first_cluster, 3);
}

#[test]
fn disk_image_open_file_outcomes() {
    let img = build();
    let fs = mount(&img);
    assert_eq!(
        open(&fs, &img, "/README.TXT"),
        Ok(b"ROS Disk Test - FAT32 driver is working!\nHello from the kernel!\n".to_vec())
    );
    assert_eq!(open(&fs, &img, "readme.txt"), Err(Fat32Error::NotFound));
    assert_eq!(open(&fs, &img, "README.TXT/"), Err(Fat32Error::NotADirectory));
    assert_eq!(open(&fs, &img, "/"), Err(Fat32Error::EmptyPath));
    assert_eq!(open(&fs, &img, "README.TXT").unwrap().len(), 64);
}
