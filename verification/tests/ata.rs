use ros_kernel::ata::{
    busy_clear, data_poll, identify_poll, read_command, lba_high, lba_low, lba_mid, no_device_status, ready_poll,
    sector_count_byte,
    signature_device, store_word, word_bytes, AtaError, DataPoll, DeviceType, Drive, SECTOR_SIZE,
};

#[test]
fn ata_new_drives_are_unprobed() {
    let m = Drive::new_master();
    let s = Drive::new_slave();
    assert!(m.is_master());
    assert!(!s.is_master());
    assert!(!m.is_present());
    assert!(!s.is_present());
    assert_eq!(m.identify_select(), 0xA0);
    assert_eq!(s.identify_select(), 0xB0);
}

#[test]
fn ata_absent_drive_refuses_reads() {
    let d = Drive::new_master();
    assert_eq!(d.check_read(512), Err(AtaError::NotPresent));
    assert_eq!(AtaError::NotPresent.message(), "ata: drive not present");
}

#[test]
fn ata_read_length_checks() {
    let mut d = Drive::new_slave();
    d.mark_present();
    assert!(d.is_present());
    assert!(!d.is_master());
    assert_eq!(d.check_read(100), Err(AtaError::BadBufferLength));
    assert_eq!(d.check_read(0), Err(AtaError::BadSectorCount));
    assert_eq!(d.check_read(257 * SECTOR_SIZE), Err(AtaError::BadSectorCount));
    assert_eq!(d.check_read(512), Ok(1));
    assert_eq!(d.check_read(256 * 512), Ok(256));
}

#[test]
fn ata_lba28_registers() {
    let lba = 0x0ABC_DEF1u32;
    assert_eq!(lba_low(lba), 0xF1);
    assert_eq!(lba_mid(lba), 0xDE);
    assert_eq!(lba_high(lba), 0xBC);
    let mut d = Drive::new_master();
    assert_eq!(d.transfer_select(lba), 0xEA);
    d = Drive::new_slave();
    assert_eq!(d.transfer_select(lba), 0xFA);
    let back = lba_low(lba) as u32
        | (lba_mid(lba) as u32) << 8
        | (lba_high(lba) as u32) << 16
        | ((d.transfer_select(lba) & 0x0F) as u32) << 24;
    assert_eq!(back, lba);
    assert_eq!(sector_count_byte(1), 1);
    assert_eq!(sector_count_byte(256), 0);
}

#[test]
fn ata_status_polls() {
    assert_eq!(data_poll(0x80 | 0x08), DataPoll::Wait);
    assert_eq!(data_poll(0x08 | 0x01), DataPoll::Ready);
    assert_eq!(data_poll(0x01), DataPoll::Failed);
    assert_eq!(data_poll(0x40), DataPoll::Wait);
    assert_eq!(identify_poll(0x08 | 0x01), DataPoll::Failed);
    assert_eq!(identify_poll(0x08), DataPoll::Ready);
    assert_eq!(identify_poll(0x81), DataPoll::Wait);
    assert!(ready_poll(0x40));
    assert!(!ready_poll(0xC0));
    assert!(!ready_poll(0x00));
    assert!(busy_clear(0x7F));
    assert!(no_device_status(0));
    assert!(!no_device_status(0x50));
    assert!(!busy_clear(0x80));
}

#[test]
fn ata_signatures() {
    assert_eq!(signature_device(0x14, 0xEB), DeviceType::Atapi);
    assert_eq!(signature_device(0x00, 0x00), DeviceType::Absent);
    assert_eq!(signature_device(0x14, 0x00), DeviceType::Absent);
}

#[test]
fn ata_words_land_low_byte_first() {
    assert_eq!(word_bytes(0x1234), (0x34, 0x12));
    let mut buf = vec![0u8; 1024];
    store_word(&mut buf, 1, 3, 0xBEEF);
    assert_eq!(buf[512 + 6], 0xEF);
    assert_eq!(buf[512 + 7], 0xBE);
    assert_eq!(buf.iter().filter(|b| **b != 0).count(), 2);
}

#[test]
fn ata_read_command_writes() {
    assert_eq!(
        read_command(0x0012_3456, 256),
        vec![(0x1F2, 0), (0x1F3, 0x56), (0x1F4, 0x34), (0x1F5, 0x12), (0x1F7, 0x20)]
    );
}
