# ros_kernel

The verified core of the ROS hobby kernel and its host tools, written in
Verus. The functions under `src/` are proved against their
`requires`/`ensures` contracts; the calls into outside crates sit behind a
few trusted wrappers whose contracts are stated in their doc comments.

## Layout

- `src/le.rs`: little-endian field access.
- `src/text.rs`: strings as sequences of characters (trimming, lines,
  prefixes, decimal digits, UTF-8 decoding).
- `src/keyboard.rs`: the typed-byte ring buffer and the scancode decoder.
- `src/serial.rs`: the serial line's setup and byte translation.
- `src/ata.rs`: the ATA PIO protocol decisions (register values, status
  polls, request checks).
- `src/fat32.rs`: the FAT32 volume: partition and BPB parsing, geometry,
  directory listing, path lookup and file reads as step machines that name
  the sector to read next, and a model of the same walks over a whole disk.
- `src/initramfs.rs`: the newc CPIO reader.
- `src/elf.rs`: the ELF64 loader's header and segment checks.
- `src/init.rs`: starting the init program: which drive to boot from and
  which pages make its stack.
- `src/syscall.rs`: system call decoding, `write`, and the MSR values.
- `src/framebuffer.rs`: the text console's cursor and glyph drawing.
- `src/disk_image.rs`: the layout of the runner's FAT32 disk image, and
  what the driver finds on it once it is written.
- `src/codecheck.rs`, `src/report.rs`: the source scanners of the
  code-check tool and its reports and viewer state.
- `tests/`: tests on concrete values.
- `app/`: the port I/O, shared kernel state, hardware tables, the QEMU
  runner and the terminal viewer, which carry out what the library decides.
