use vstd::prelude::*;

verus! {

/// I/O base of the first serial port.
pub const COM1_BASE: u16 = 0x3F8;

/// Line status bit: the transmit holding register is empty.
pub const LINE_STATUS_THR_EMPTY: u8 = 0x20;

/// The port setup, as (offset from the base, value) writes in order:
/// interrupts off, divisor latch on, divisor 3 (38400 baud), interrupts
/// off, 8 bits no parity one stop bit, FIFO on and cleared with a 14-byte
/// threshold, modem lines DTR and RTS on.
pub open spec fn spec_init_writes() -> Seq<(u16, u8)> {
    seq![(1u16, 0x00u8), (3, 0x80), (0, 0x03), (1, 0x00), (3, 0x03), (2, 0xC7), (4, 0x03)]
}

/// The port setup writes.
pub fn init_writes() -> (w: Vec<(u16, u8)>)
    ensures
        w@ == spec_init_writes(),
{
    let w = vec![(1u16, 0x00u8), (3, 0x80), (0, 0x03), (1, 0x00), (3, 0x03), (2, 0xC7), (4, 0x03)];
    assert(w@ =~= spec_init_writes());
    w
}

/// Whether the line status `s` lets the next byte be sent.
pub fn transmit_ready(s: u8) -> (b: bool)
    ensures
        b == (s & LINE_STATUS_THR_EMPTY != 0),
{
    s & LINE_STATUS_THR_EMPTY != 0
}

/// The bytes the serial port sends for one byte of text: a newline as CR
/// LF, a backspace or delete as backspace, space, backspace.
pub open spec fn serial_bytes(b: u8) -> Seq<u8> {
    if b == 0x0A {
        seq![0x0Du8, 0x0Au8]
    } else if b == 0x08 || b == 0x7F {
        seq![0x08u8, 0x20u8, 0x08u8]
    } else {
        seq![b]
    }
}

/// The bytes the serial port sends for the text `s`.
pub open spec fn serial_encoding(s: Seq<u8>) -> Seq<u8>
    decreases s.len(),
{
    if s.len() == 0 {
        Seq::empty()
    } else {
        serial_encoding(s.drop_last()) + serial_bytes(s.last())
    }
}

/// Translates text for the serial terminal.
pub fn encode_serial(s: &[u8]) -> (out: Vec<u8>)
    ensures
        out@ == serial_encoding(s@),
{
    let mut out: Vec<u8> = Vec::new();
    let mut i: usize = 0;
    assert(s@.subrange(0, 0) =~= Seq::<u8>::empty());
    while i < s.len()
        invariant
            i <= s@.len(),
            out@ == serial_encoding(s@.subrange(0, i as int)),
        decreases s@.len() - i,
    {
        assert(s@.subrange(0, i + 1).drop_last() =~= s@.subrange(0, i as int));
        let b = s[i];
        let ghost before = out@;
        if b == 0x0A {
            out.push(0x0D);
            out.push(0x0A);
        } else if b == 0x08 || b == 0x7F {
            out.push(0x08);
            out.push(0x20);
            out.push(0x08);
        } else {
            out.push(b);
        }
        assert(out@ =~= before + serial_bytes(b));
        i += 1;
    }
    assert(s@.subrange(0, i as int) =~= s@);
    out
}


/// Text without newlines, backspaces and deletes goes out unchanged.
pub proof fn law_plain_text_unchanged(s: Seq<u8>)
    requires
        forall|i: int| 0 <= i < s.len() ==> #[trigger] s[i] != 0x0A && s[i] != 0x08 && s[i] != 0x7F,
    ensures
        serial_encoding(s) == s,
    decreases s.len(),
{
    if s.len() > 0 {
        let p = s.drop_last();
        assert forall|i: int| 0 <= i < p.len() implies #[trigger] p[i] != 0x0A && p[i] != 0x08
            && p[i] != 0x7F by {
            assert(p[i] == s[i]);
        }
        law_plain_text_unchanged(p);
        assert(s[s.len() - 1] != 0x0A);
        assert(p + seq![s.last()] =~= s);
    }
}

/// Every byte of text becomes at least one byte on the line.
pub proof fn law_encoding_not_shorter(s: Seq<u8>)
    ensures
        serial_encoding(s).len() >= s.len(),
    decreases s.len(),
{
    if s.len() > 0 {
        law_encoding_not_shorter(s.drop_last());
    }
}

} // verus!
