use ros_kernel::keyboard::{accept_key, read_keybuf, KeyBuffer, KeyDecoder, decode_scancode};

#[test]
fn key_buffer_starts_empty() {
    let mut kb = KeyBuffer::new();
    assert!(kb.is_empty());
    assert_eq!(kb.pop(), None);
}

#[test]
fn key_buffer_is_fifo() {
    let mut kb = KeyBuffer::new();
    kb.push(b'a');
    kb.push(b'b');
    kb.push(b'c');
    assert!(!kb.is_empty());
    assert_eq!(kb.pop(), Some(b'a'));
    kb.push(b'd');
    assert_eq!(kb.pop(), Some(b'b'));
    assert_eq!(kb.pop(), Some(b'c'));
    assert_eq!(kb.pop(), Some(b'd'));
    assert_eq!(kb.pop(), None);
    assert!(kb.is_empty());
}

#[test]
fn key_buffer_holds_255_and_drops_the_rest() {
    let mut kb = KeyBuffer::new();
    for i in 0..300u32 {
        kb.push((i % 256) as u8);
    }
    for i in 0..255u32 {
        assert_eq!(kb.pop(), Some((i % 256) as u8));
    }
    assert_eq!(kb.pop(), None);
}

#[test]
fn key_buffer_wraps_around() {
    let mut kb = KeyBuffer::new();
    for round in 0..10u32 {
        for i in 0..200u32 {
            kb.push(((round + i) % 256) as u8);
        }
        for i in 0..200u32 {
            assert_eq!(kb.pop(), Some(((round + i) % 256) as u8));
        }
    }
    assert!(kb.is_empty());
}

#[test]
fn read_keybuf_stops_after_newline() {
    let mut kb = KeyBuffer::new();
    for b in b"ls\nrest" {
        kb.push(*b);
    }
    let mut buf = [0u8; 16];
    let n = read_keybuf(&mut kb, &mut buf);
    assert_eq!(n, 3);
    assert_eq!(&buf[..3], b"ls\n");
    assert_eq!(buf[3], 0);
    let n = read_keybuf(&mut kb, &mut buf);
    assert_eq!(n, 4);
    assert_eq!(&buf[..4], b"rest");
    assert!(kb.is_empty());
}

#[test]
fn read_keybuf_stops_when_buffer_full() {
    let mut kb = KeyBuffer::new();
    for b in b"abcdef" {
        kb.push(*b);
    }
    let mut buf = [0u8; 4];
    assert_eq!(read_keybuf(&mut kb, &mut buf), 4);
    assert_eq!(&buf, b"abcd");
    assert_eq!(kb.pop(), Some(b'e'));
}

#[test]
fn read_keybuf_on_empty_buffer_reads_nothing() {
    let mut kb = KeyBuffer::new();
    let mut buf = [7u8; 4];
    assert_eq!(read_keybuf(&mut kb, &mut buf), 0);
    assert_eq!(buf, [7u8; 4]);
}

#[test]
fn accept_key_keeps_ascii_only() {
    let mut kb = KeyBuffer::new();
    accept_key(&mut kb, Some('x'));
    accept_key(&mut kb, Some('é'));
    accept_key(&mut kb, None);
    accept_key(&mut kb, Some('\n'));
    assert_eq!(kb.pop(), Some(b'x'));
    assert_eq!(kb.pop(), Some(b'\n'));
    assert_eq!(kb.pop(), None);
}

#[test]
fn decoder_turns_scancodes_into_ascii() {
    let mut dec = KeyDecoder::new();
    let mut kb = KeyBuffer::new();
    // Set 1 make and break codes of 'a' (0x1E / 0x9E), then 'b' (0x30 / 0xB0).
    let keys: Vec<Option<char>> =
        [0x1Eu8, 0x9E, 0x30, 0xB0].iter().map(|sc| decode_scancode(&mut dec, &mut kb, *sc)).collect();
    assert_eq!(keys, vec![Some('a'), None, Some('b'), None]);
    assert_eq!(kb.pop(), Some(b'a'));
    assert_eq!(kb.pop(), Some(b'b'));
    assert_eq!(kb.pop(), None);
}

#[test]
fn decoder_applies_shift() {
    let mut dec = KeyDecoder::new();
    let mut kb = KeyBuffer::new();
    // Left shift down, 'a', left shift up.
    let keys: Vec<Option<char>> =
        [0x2Au8, 0x1E, 0x9E, 0xAA].iter().map(|sc| decode_scancode(&mut dec, &mut kb, *sc)).collect();
    assert_eq!(keys, vec![None, Some('A'), None, None]);
    assert_eq!(kb.pop(), Some(b'A'));
    assert_eq!(kb.pop(), None);
}

#[test]
fn decoder_queues_enter_as_newline() {
    let mut dec = KeyDecoder::new();
    let mut kb = KeyBuffer::new();
    // Enter (0x1C) gives '\n', which is queued.
    assert_eq!(decode_scancode(&mut dec, &mut kb, 0x1C), Some('\n'));
    assert_eq!(kb.pop(), Some(b'\n'));
    assert!(kb.is_empty());
}
