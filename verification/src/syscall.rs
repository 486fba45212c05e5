use vstd::prelude::*;
use vstd::utf8::valid_utf8;
use crate::text::utf8_to_string;

verus! {

/// System call number of `write`.
pub const SYS_WRITE: u64 = 1;

/// System call number of `exit`.
pub const SYS_EXIT: u64 = 60;

/// What `rax` is set to for an unknown system call.
pub const SYSCALL_UNKNOWN_RESULT: u64 = 0xFFFF_FFFF_FFFF_FFFF;

/// The system call a number selects.
#[derive(Debug, Clone, Copy, PartialEq, Eq, Structural)]
pub enum Syscall {
    Write,
    Exit,
    Unknown,
}

/// Decodes the system call number in `rax`.
pub fn decode_syscall(rax: u64) -> (s: Syscall)
    ensures
        s == (if rax == SYS_WRITE {
            Syscall::Write
        } else if rax == SYS_EXIT {
            Syscall::Exit
        } else {
            Syscall::Unknown
        }),
{
    if rax == SYS_WRITE {
        Syscall::Write
    } else if rax == SYS_EXIT {
        Syscall::Exit
    } else {
        Syscall::Unknown
    }
}

/// The ASCII bytes of `b`, in order.
pub open spec fn ascii_only(b: Seq<u8>) -> Seq<u8>
    decreases b.len(),
{
    if b.len() == 0 {
        b
    } else if b.last() < 128 {
        ascii_only(b.drop_last()).push(b.last())
    } else {
        ascii_only(b.drop_last())
    }
}

/// What `write` prints for the bytes `b`: all of them when they are valid
/// UTF-8, else only the ASCII ones.
pub open spec fn write_output(b: Seq<u8>) -> Seq<u8> {
    if valid_utf8(b) {
        b
    } else {
        ascii_only(b)
    }
}

/// The `write` system call: for standard output or standard error, the
/// bytes to print; `None` for any other descriptor.
pub fn sys_write_output(fd: u64, buf: &[u8]) -> (r: Option<Vec<u8>>)
    ensures
        (fd != 1 && fd != 2) ==> r is None,
        (fd == 1 || fd == 2) ==> (r matches Some(v) && v@ == write_output(buf@)),
{
    if fd != 1 && fd != 2 {
        return None;
    }
    if utf8_to_string(buf).is_some() {
        return Some(vstd::slice::slice_to_vec(buf));
    }
    let mut out: Vec<u8> = Vec::new();
    let mut i: usize = 0;
    assert(buf@.subrange(0, 0) =~= Seq::<u8>::empty());
    while i < buf.len()
        invariant
            i <= buf@.len(),
            out@ == ascii_only(buf@.subrange(0, i as int)),
        decreases buf@.len() - i,
    {
        assert(buf@.subrange(0, i + 1).drop_last() =~= buf@.subrange(0, i as int));
        if buf[i] < 128 {
            out.push(buf[i]);
        }
        i += 1;
    }
    assert(buf@.subrange(0, i as int) =~= buf@);
    Some(out)
}

/// The value `write` returns: -1 for a refused descriptor, else the length
/// of the buffer.
pub fn sys_write_result(fd: u64, len: usize) -> (r: i64)
    ensures
        (fd != 1 && fd != 2) ==> r == -1,
        (fd == 1 || fd == 2) ==> r == len as i64,
{
    if fd != 1 && fd != 2 {
        -1
    } else {
        len as i64
    }
}

/// Model-specific register: extended feature enable.
pub const MSR_EFER: u32 = 0xC000_0080;

/// Model-specific register: segment selectors of SYSCALL and SYSRET.
pub const MSR_STAR: u32 = 0xC000_0081;

/// Model-specific register: SYSCALL entry point.
pub const MSR_LSTAR: u32 = 0xC000_0082;

/// Model-specific register: RFLAGS bits cleared on SYSCALL.
pub const MSR_SFMASK: u32 = 0xC000_0084;

/// Model-specific register: the GS base swapped in by SWAPGS.
pub const MSR_KERNEL_GS_BASE: u32 = 0xC000_0102;

/// RFLAGS bits cleared on SYSCALL: the interrupt flag.
pub const SYSCALL_FLAG_MASK: u64 = 0x200;

/// EFER with system calls enabled (the SCE bit set).
pub fn efer_with_syscalls(efer: u64) -> (r: u64)
    ensures
        r == efer | 1,
        r % 2 == 1,
        r / 2 == efer / 2,
{
    assert((efer | 1) % 2 == 1 && (efer | 1) / 2 == efer / 2) by (bit_vector);
    efer | 1
}

/// The STAR value for the given user and kernel code selectors: the
/// kernel CS in bits 32..48 and, in bits 48..64, the base that SYSRET adds
/// 16 to for the user CS (and 8 for the user SS).
pub fn star_value(user_code_selector: u16, kernel_code_selector: u16) -> (v: u64)
    requires
        user_code_selector & 0xFFF8 >= 16,
    ensures
        v == ((user_code_selector & 0xFFF8) - 16) * 0x1_0000_0000_0000 + kernel_code_selector
            * 0x1_0000_0000,
{
    let user = (user_code_selector & 0xFFF8) as u64;
    let base = user - 16;
    let k = kernel_code_selector as u64;
    assert(base < 0x1_0000);
    assert((base << 48) | (k << 32) == base * 0x1_0000_0000_0000 + k * 0x1_0000_0000) by (bit_vector)
        requires
            base < 0x1_0000,
            k < 0x1_0000,
    ;
    (base << 48) | (k << 32)
}

/// The two halves of a 64-bit MSR value, low first, as WRMSR takes them.
pub fn msr_halves(v: u64) -> (r: (u32, u32))
    ensures
        r.0 == v % 0x1_0000_0000,
        r.1 == v / 0x1_0000_0000,
{
    ((v % 0x1_0000_0000) as u32, (v / 0x1_0000_0000) as u32)
}

/// The 64-bit MSR value of the halves RDMSR gives.
pub fn msr_join(lo: u32, hi: u32) -> (v: u64)
    ensures
        v == hi * 0x1_0000_0000 + lo,
{
    (hi as u64) * 0x1_0000_0000 + lo as u64
}

} // verus!
