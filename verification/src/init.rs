use vstd::prelude::*;
use crate::ata::{DeviceType, Drive};

verus! {

/// Lowest address of the init program's stack.
pub const USER_STACK_BOTTOM: u64 = 0x7F_FFFF_0000;

/// Size of the init program's stack, in bytes.
pub const USER_STACK_SIZE: u64 = 64 * 1024;

/// Size of a page.
pub const PAGE_SIZE: u64 = 4096;

/// What the search for the boot drive does after probing one position.
#[derive(Debug, Clone, Copy, PartialEq, Eq, Structural)]
pub enum DriveSearch {
    /// The probed drive is an ATA drive: boot from it.
    Use,
    /// Probe the slave position next.
    TrySlave,
    /// Neither position holds an ATA drive.
    NoDrive,
}

/// The master position is probed first, then the slave; the first that
/// answers as an ATA drive is used.
pub open spec fn spec_drive_search(master: bool, found: DeviceType) -> DriveSearch {
    if found == DeviceType::Ata {
        DriveSearch::Use
    } else if master {
        DriveSearch::TrySlave
    } else {
        DriveSearch::NoDrive
    }
}

/// What to do after probing `drive` found `found`.
pub fn after_probe(drive: &Drive, found: DeviceType) -> (s: DriveSearch)
    ensures
        s == spec_drive_search(drive.spec_master(), found),
{
    match found {
        DeviceType::Ata => DriveSearch::Use,
        _ => if drive.is_master() {
            DriveSearch::TrySlave
        } else {
            DriveSearch::NoDrive
        },
    }
}

/// The address of page `k` of the init program's stack.
pub open spec fn stack_page(k: int) -> int {
    USER_STACK_BOTTOM + k * PAGE_SIZE
}

/// The pages to map for the init program's stack, lowest first: one page
/// every `PAGE_SIZE` bytes from `USER_STACK_BOTTOM` up to
/// `USER_STACK_BOTTOM + USER_STACK_SIZE`.
pub fn user_stack_pages() -> (v: Vec<u64>)
    ensures
        v@.len() * PAGE_SIZE == USER_STACK_SIZE,
        forall|k: int| 0 <= k < v@.len() ==> v@[k] == stack_page(k),
{
    let mut v: Vec<u64> = Vec::new();
    let mut off: u64 = 0;
    while off < USER_STACK_SIZE
        invariant
            off == v@.len() * PAGE_SIZE,
            off <= USER_STACK_SIZE,
            forall|k: int| 0 <= k < v@.len() ==> v@[k] == stack_page(k),
        decreases USER_STACK_SIZE - off,
    {
        v.push(USER_STACK_BOTTOM + off);
        off = off + PAGE_SIZE;
    }
    v
}

/// The address the init program's stack starts from: its top.
pub fn user_stack_top() -> (t: u64)
    ensures
        t == USER_STACK_BOTTOM + USER_STACK_SIZE,
{
    USER_STACK_BOTTOM + USER_STACK_SIZE
}

/// The stack pages cover the stack exactly: every address of the stack,
/// and no other, lies in one of the pages.
pub proof fn law_stack_pages_cover(n: nat, a: int)
    requires
        n * PAGE_SIZE == USER_STACK_SIZE,
    ensures
        (USER_STACK_BOTTOM <= a < USER_STACK_BOTTOM + USER_STACK_SIZE) <==> (exists|k: int|
            0 <= k < n && #[trigger] stack_page(k) <= a < stack_page(k) + PAGE_SIZE),
{
    if USER_STACK_BOTTOM <= a < USER_STACK_BOTTOM + USER_STACK_SIZE {
        let k = (a - USER_STACK_BOTTOM) / (PAGE_SIZE as int);
        assert(stack_page(k) <= a < stack_page(k) + PAGE_SIZE);
        assert(0 <= k < n);
    }
    if exists|k: int| 0 <= k < n && #[trigger] stack_page(k) <= a < stack_page(k) + PAGE_SIZE {
        let k = choose|k: int| 0 <= k < n && #[trigger] stack_page(k) <= a < stack_page(k) + PAGE_SIZE;
        assert(k <= n - 1);
        assert(k * 4096 <= (n - 1) * 4096) by (nonlinear_arith)
            requires
                k <= n - 1,
                0 <= k,
        ;
    }
}

} // verus!
