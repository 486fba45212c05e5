use vstd::prelude::*;

verus! {

/// The little-endian `u16` stored at `off` in `b`.
pub open spec fn le16(b: Seq<u8>, off: int) -> u16 {
    (b[off] + 256 * b[off + 1]) as u16
}

/// The little-endian `u32` stored at `off` in `b`.
pub open spec fn le32(b: Seq<u8>, off: int) -> u32 {
    (b[off] + 0x100 * b[off + 1] + 0x1_0000 * b[off + 2] + 0x100_0000 * b[off + 3]) as u32
}

/// The little-endian `u64` stored at `off` in `b`.
pub open spec fn le64(b: Seq<u8>, off: int) -> u64 {
    (le32(b, off) + 0x1_0000_0000 * le32(b, off + 4)) as u64
}

/// Reads the little-endian `u16` at byte offset `off`.
pub fn rd_u16(buf: &[u8], off: usize) -> (v: u16)
    requires
        off + 2 <= buf@.len(),
    ensures
        v == le16(buf@, off as int),
{
    buf[off] as u16 + (buf[off + 1] as u16) * 256
}

/// Reads the little-endian `u32` at byte offset `off`.
pub fn rd_u32(buf: &[u8], off: usize) -> (v: u32)
    requires
        off + 4 <= buf@.len(),
    ensures
        v == le32(buf@, off as int),
{
    buf[off] as u32 + (buf[off + 1] as u32) * 0x100 + (buf[off + 2] as u32) * 0x1_0000 + (buf[off
        + 3] as u32) * 0x100_0000
}

/// Reads the little-endian `u64` at byte offset `off`.
pub fn rd_u64(buf: &[u8], off: usize) -> (v: u64)
    requires
        off + 8 <= buf@.len(),
    ensures
        v == le64(buf@, off as int),
{
    let _n = buf.len();
    let lo = rd_u32(buf, off);
    let hi = rd_u32(buf, off + 4);
    lo as u64 + (hi as u64) * 0x1_0000_0000
}

/// Stores `v` little-endian at byte offset `off`.
pub fn wr_u16(buf: &mut Vec<u8>, off: usize, v: u16)
    requires
        off + 2 <= old(buf)@.len(),
    ensures
        final(buf)@ == old(buf)@.update(off as int, (v % 0x100) as u8).update(
            off + 1,
            (v / 0x100) as u8,
        ),
{
    let _n = buf.len();
    buf.set(off, (v % 0x100) as u8);
    buf.set(off + 1, (v / 0x100) as u8);
}

/// Stores `v` little-endian at byte offset `off`.
pub fn wr_u32(buf: &mut Vec<u8>, off: usize, v: u32)
    requires
        off + 4 <= old(buf)@.len(),
    ensures
        final(buf)@ == old(buf)@.update(off as int, (v % 0x100) as u8).update(
            off + 1,
            ((v / 0x100) % 0x100) as u8,
        ).update(off + 2, ((v / 0x1_0000) % 0x100) as u8).update(off + 3, (v / 0x100_0000) as u8),
{
    let _n = buf.len();
    buf.set(off, (v % 0x100) as u8);
    buf.set(off + 1, ((v / 0x100) % 0x100) as u8);
    buf.set(off + 2, ((v / 0x1_0000) % 0x100) as u8);
    buf.set(off + 3, (v / 0x100_0000) as u8);
}

} // verus!
