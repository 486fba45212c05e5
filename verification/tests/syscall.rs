use ros_kernel::serial::{encode_serial, init_writes, transmit_ready};
use ros_kernel::syscall::{
    decode_syscall, efer_with_syscalls, msr_halves, msr_join, star_value, sys_write_output,
    sys_write_result, Syscall, SYSCALL_UNKNOWN_RESULT,
};

#[test]
fn syscall_numbers() {
    assert_eq!(decode_syscall(1), Syscall::Write);
    assert_eq!(decode_syscall(60), Syscall::Exit);
    assert_eq!(decode_syscall(0), Syscall::Unknown);
    assert_eq!(decode_syscall(59), Syscall::Unknown);
    assert_eq!(SYSCALL_UNKNOWN_RESULT, u64::MAX);
}

#[test]
fn syscall_write_prints_utf8_as_is() {
    let text = "olá, mundo\n".as_bytes();
    assert_eq!(sys_write_output(1, text), Some(text.to_vec()));
    assert_eq!(sys_write_output(2, b"err"), Some(b"err".to_vec()));
    assert_eq!(sys_write_result(1, text.len()), text.len() as i64);
}

#[test]
fn syscall_write_keeps_only_ascii_of_invalid_utf8() {
    assert_eq!(sys_write_output(1, b"a\xFFb\xC3c"), Some(b"abc".to_vec()));
    assert_eq!(sys_write_output(1, b""), Some(Vec::new()));
}

#[test]
fn syscall_write_refuses_other_descriptors() {
    assert_eq!(sys_write_output(0, b"x"), None);
    assert_eq!(sys_write_output(3, b"x"), None);
    assert_eq!(sys_write_result(0, 5), -1);
    assert_eq!(sys_write_result(7, 5), -1);
}

#[test]
fn serial_translates_newlines_and_erasure() {
    assert_eq!(encode_serial(b"ab\nc"), b"ab\r\nc".to_vec());
    assert_eq!(encode_serial(b"x\x08y\x7F"), b"x\x08 \x08y\x08 \x08".to_vec());
    assert_eq!(encode_serial(b"plain text"), b"plain text".to_vec());
    assert_eq!(encode_serial(b""), Vec::<u8>::new());
}

#[test]
fn syscall_msr_values() {
    // user code selector 0x33 (index 6, ring 3), kernel code 0x08
    assert_eq!(star_value(0x33, 0x08), (0x20u64 << 48) | (0x08u64 << 32));
    assert_eq!(efer_with_syscalls(0xD00), 0xD01);
    assert_eq!(efer_with_syscalls(0xD01), 0xD01);
    assert_eq!(msr_halves(0x1234_5678_9ABC_DEF0), (0x9ABC_DEF0, 0x1234_5678));
    assert_eq!(msr_join(0x9ABC_DEF0, 0x1234_5678), 0x1234_5678_9ABC_DEF0);
}

#[test]
fn serial_setup_and_transmit() {
    assert_eq!(
        init_writes(),
        vec![(1, 0x00), (3, 0x80), (0, 0x03), (1, 0x00), (3, 0x03), (2, 0xC7), (4, 0x03)]
    );
    assert!(transmit_ready(0x60));
    assert!(transmit_ready(0x20));
    assert!(!transmit_ready(0x40));
    assert!(!transmit_ready(0x00));
}
