use ros_kernel::ata::{DeviceType, Drive};
use ros_kernel::init::{after_probe, user_stack_pages, user_stack_top, DriveSearch};

#[test]
fn init_drive_search_tries_master_then_slave() {
    let master = Drive::new_master();
    let slave = Drive::new_slave();
    assert_eq!(after_probe(&master, DeviceType::Ata), DriveSearch::Use);
    assert_eq!(after_probe(&master, DeviceType::Atapi), DriveSearch::TrySlave);
    assert_eq!(after_probe(&master, DeviceType::Absent), DriveSearch::TrySlave);
    assert_eq!(after_probe(&slave, DeviceType::Ata), DriveSearch::Use);
    assert_eq!(after_probe(&slave, DeviceType::Absent), DriveSearch::NoDrive);
    assert_eq!(after_probe(&slave, DeviceType::Atapi), DriveSearch::NoDrive);
}

#[test]
fn init_user_stack_plan() {
    let pages = user_stack_pages();
    assert_eq!(pages.len(), 16);
    assert_eq!(pages[0], 0x7F_FFFF_0000);
    for (k, p) in pages.iter().enumerate() {
        assert_eq!(*p, 0x7F_FFFF_0000 + 4096 * k as u64);
    }
    assert_eq!(user_stack_top(), 0x7F_FFFF_0000 + 0x1_0000);
    assert_eq!(pages[15] + 4096, user_stack_top());
}
