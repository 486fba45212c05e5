//! Verified core of the ROS kernel and its host tools: the keyboard ring
//! buffer, the ATA request logic, the FAT32 volume logic, the initramfs
//! (newc CPIO) reader, the ELF loader's checks, the choices made to start the init program, the system call decoding,
//! the framebuffer text console, the serial line's byte translation, the
//! runner's disk image layout, and the source scanners and reports of the
//! code-check tool.
pub mod ata;
pub mod codecheck;
pub mod disk_image;
pub mod elf;
pub mod fat32;
pub mod framebuffer;
pub mod init;
pub mod initramfs;
pub mod keyboard;
pub mod le;
pub mod report;
pub mod serial;
pub mod syscall;
pub mod text;
