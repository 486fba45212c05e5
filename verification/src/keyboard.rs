use vstd::prelude::*;
use pc_keyboard::{layouts, Keyboard, KeyEvent, ScancodeSet1};

verus! {

/// Number of slots of the ring buffer; one slot always stays free, so at
/// most `KEY_BUFFER_SLOTS - 1` bytes are held.
pub const KEY_BUFFER_SLOTS: usize = 256;

/// The most bytes a `KeyBuffer` holds.
pub open spec fn key_buffer_capacity() -> nat {
    (KEY_BUFFER_SLOTS - 1) as nat
}

/// What `push` does to the queued bytes: append, unless the buffer is full.
pub open spec fn queue_push(q: Seq<u8>, byte: u8) -> Seq<u8> {
    if q.len() < key_buffer_capacity() {
        q.push(byte)
    } else {
        q
    }
}

/// What `pop` returns for the queued bytes: the oldest one, if any.
pub open spec fn queue_front(q: Seq<u8>) -> Option<u8> {
    if q.len() == 0 {
        None
    } else {
        Some(q[0])
    }
}

/// What `pop` leaves of the queued bytes.
pub open spec fn queue_pop(q: Seq<u8>) -> Seq<u8> {
    if q.len() == 0 {
        q
    } else {
        q.drop_first()
    }
}

/// A fixed-size ring buffer of typed bytes, filled by the keyboard handler
/// and drained by readers.
pub struct KeyBuffer {
    buffer: [u8; 256],
    head: usize,
    tail: usize,
}

impl KeyBuffer {
    /// The buffer's state is consistent: both cursors are slot indices.
    pub closed spec fn wf(&self) -> bool {
        self.head < KEY_BUFFER_SLOTS && self.tail < KEY_BUFFER_SLOTS
    }

    /// The slot of the oldest queued byte.
    pub closed spec fn spec_head(&self) -> usize {
        self.head
    }

    /// The slot the next pushed byte goes to.
    pub closed spec fn spec_tail(&self) -> usize {
        self.tail
    }

    /// Number of queued bytes.
    pub closed spec fn spec_len(&self) -> nat {
        ((self.tail + KEY_BUFFER_SLOTS - self.head) % (KEY_BUFFER_SLOTS as int)) as nat
    }

    /// The queued bytes, oldest first.
    pub closed spec fn view(&self) -> Seq<u8> {
        Seq::new(
            self.spec_len(),
            |i: int| self.buffer@[(self.head + i) % (KEY_BUFFER_SLOTS as int)],
        )
    }

    /// Every well-formed buffer holds at most `key_buffer_capacity()` bytes.
    pub proof fn law_within_capacity(&self)
        requires
            self.wf(),
        ensures
            self@.len() <= key_buffer_capacity(),
    {
    }

    /// An empty buffer.
    pub fn new() -> (kb: Self)
        ensures
            kb.wf(),
            kb@ == Seq::<u8>::empty(),
            kb.spec_head() == 0,
            kb.spec_tail() == 0,
    {
        KeyBuffer { buffer: [0u8; 256], head: 0, tail: 0 }
    }

    /// Appends `byte`; a full buffer drops it.
    pub fn push(&mut self, byte: u8)
        requires
            old(self).wf(),
        ensures
            final(self).wf(),
            final(self)@ == queue_push(old(self)@, byte),
            final(self).spec_head() == old(self).spec_head(),
            old(self)@.len() >= key_buffer_capacity() ==> final(self).spec_tail() == old(
                self,
            ).spec_tail(),
    {
        let next = (self.tail + 1) % KEY_BUFFER_SLOTS;
        if next == self.head {
            return;
        }
        let ghost before = self@;
        self.buffer[self.tail] = byte;
        self.tail = next;
        assert(self@ =~= before.push(byte));
    }

    /// Removes and returns the oldest byte, or `None` when empty.
    pub fn pop(&mut self) -> (r: Option<u8>)
        requires
            old(self).wf(),
        ensures
            final(self).wf(),
            r == queue_front(old(self)@),
            final(self)@ == queue_pop(old(self)@),
            final(self).spec_tail() == old(self).spec_tail(),
            old(self)@.len() == 0 ==> final(self).spec_head() == old(self).spec_head(),
    {
        if self.head == self.tail {
            return None;
        }
        let ghost before = self@;
        let byte = self.buffer[self.head];
        self.head = (self.head + 1) % KEY_BUFFER_SLOTS;
        assert(self@ =~= before.drop_first());
        Some(byte)
    }

    /// Whether no byte is queued.
    pub fn is_empty(&self) -> (b: bool)
        requires
            self.wf(),
        ensures
            b == (self@.len() == 0),
    {
        self.head == self.tail
    }
}


/// How many bytes a read into a buffer with `room` free bytes takes from
/// the queue `q`: up to and including the first newline, no more than
/// `room`, and no more than are queued.
pub open spec fn read_count(q: Seq<u8>, room: nat) -> nat
    decreases room,
{
    if room == 0 || q.len() == 0 {
        0
    } else if q[0] == 0x0A {
        1
    } else {
        1 + read_count(q.drop_first(), (room - 1) as nat)
    }
}

/// A read never takes more than there is room for or is queued.
pub proof fn lemma_read_count_bounds(q: Seq<u8>, room: nat)
    ensures
        read_count(q, room) <= room,
        read_count(q, room) <= q.len(),
    decreases room,
{
    if room > 0 && q.len() > 0 && q[0] != 0x0A {
        lemma_read_count_bounds(q.drop_first(), (room - 1) as nat);
    }
}

/// Moves typed bytes from `kb` into `buf`, oldest first, until `buf` is
/// full, the queue is empty, or a newline was moved; returns how many.
pub fn read_keybuf(kb: &mut KeyBuffer, buf: &mut [u8]) -> (n: usize)
    requires
        old(kb).wf(),
    ensures
        final(kb).wf(),
        n == read_count(old(kb)@, old(buf)@.len()),
        final(buf)@.len() == old(buf)@.len(),
        final(buf)@.subrange(0, n as int) == old(kb)@.subrange(0, n as int),
        final(buf)@.subrange(n as int, old(buf)@.len() as int) == old(buf)@.subrange(
            n as int,
            old(buf)@.len() as int,
        ),
        final(kb)@ == old(kb)@.skip(n as int),
{
    let mut copied: usize = 0;
    let len = buf.len();
    proof {
        lemma_read_count_bounds(old(kb)@, len as nat);
    }
    while copied < len
        invariant
            kb.wf(),
            buf@.len() == len,
            len == old(buf)@.len(),
            copied <= len,
            copied <= old(kb)@.len(),
            kb@ == old(kb)@.skip(copied as int),
            buf@.subrange(0, copied as int) == old(kb)@.subrange(0, copied as int),
            buf@.subrange(copied as int, len as int) == old(buf)@.subrange(copied as int, len as int),
            read_count(old(kb)@, len as nat) == copied + read_count(kb@, (len - copied) as nat),
        decreases len - copied,
    {
        let ghost q = kb@;
        let ghost b0 = buf@;
        match kb.pop() {
            Some(b) => {
                buf[copied] = b;
                assert(buf@.subrange(0, copied + 1) =~= old(kb)@.subrange(0, copied + 1));
                assert(buf@.subrange(copied + 1, len as int) =~= old(buf)@.subrange(
                    copied + 1,
                    len as int,
                )) by {
                    assert forall|j: int| copied + 1 <= j < len implies #[trigger] b0[j]
                        == old(buf)@[j] by {
                        assert(b0.subrange(copied as int, len as int)[j - copied] == b0[j]);
                        assert(old(buf)@.subrange(copied as int, len as int)[j - copied] == old(
                            buf,
                        )@[j]);
                    }
                }
                assert(kb@ =~= old(kb)@.skip(copied + 1));
                copied += 1;
                if b == 0x0A {
                    return copied;
                }
            },
            None => {
                return copied;
            },
        }
    }
    copied
}

/// Queues the key a scancode decoded to, when it is an ASCII character;
/// anything else is dropped.
pub fn accept_key(buf: &mut KeyBuffer, key: Option<char>)
    requires
        old(buf).wf(),
    ensures
        final(buf).wf(),
        match key {
            Some(c) => if (c as u32) < 128 {
                final(buf)@ == queue_push(old(buf)@, (c as u32) as u8)
            } else {
                final(buf)@ == old(buf)@
            },
            None => final(buf)@ == old(buf)@,
        },
{
    if let Some(c) = key {
        if (c as u32) < 128 {
            buf.push((c as u32) as u8);
        }
    }
}

/// The decoding machine of the keyboard driver: a `pc_keyboard::Keyboard`
/// for scancode set 1, the US 104-key layout and control keys not mapped,
/// held as an opaque value.
#[verifier::external_body]
struct DecoderCore {
    inner: Keyboard<layouts::Us104Key, ScancodeSet1>,
}

/// The PS/2 decoder of the keyboard driver, with the record of the bytes
/// it was fed and of the key event it returned and that is not processed
/// yet.
pub struct KeyDecoder {
    core: DecoderCore,
    fed: Ghost<Seq<u8>>,
    pending: Ghost<Option<KeyEvent>>,
}

/// Whether the decoder, fed the bytes `fed` in order from its initial
/// state, completes a key event with the last of them: what
/// `pc_keyboard::Keyboard::add_byte` answers (`Ok(Some(_))`) for that byte.
/// Only `add_byte` moves the scancode state machine, so the answer depends
/// on the bytes fed alone.
pub uninterp spec fn completes_key_event(fed: Seq<u8>) -> bool;

/// The character the decoder gives for the key event that the last byte
/// of `fed` completes, when it was fed `fed` in order from its initial
/// state and every key event completed before was processed: what
/// `pc_keyboard::Keyboard::process_keyevent` answers, as the character of
/// a `DecodedKey::Unicode`, or `None` for a raw key or no key. Only
/// processed events move the modifier state, so the answer depends on the
/// bytes fed alone.
pub uninterp spec fn decoded_key(fed: Seq<u8>) -> Option<char>;

/// What decoding the last of the bytes `fed` gives: the character of the
/// key event it completes, if it completes one.
pub open spec fn spec_decode(fed: Seq<u8>) -> Option<char> {
    if completes_key_event(fed) {
        decoded_key(fed)
    } else {
        None
    }
}

impl KeyDecoder {
    /// The bytes the decoder was fed, in order.
    pub closed spec fn spec_fed(&self) -> Seq<u8> {
        self.fed@
    }

    /// The key event the decoder returned and that is not processed yet.
    pub closed spec fn spec_pending(&self) -> Option<KeyEvent> {
        self.pending@
    }

    /// Every key event the decoder returned was processed.
    pub open spec fn wf(&self) -> bool {
        self.spec_pending() is None
    }

    /// A decoder in its initial state: fed nothing yet.
    pub fn new() -> (d: KeyDecoder)
        ensures
            d.spec_fed() == Seq::<u8>::empty(),
            d.wf(),
    {
        make_key_decoder()
    }
}

/// Calls `pc_keyboard::Keyboard::new` with scancode set 1, the US 104-key
/// layout and `HandleControl::Ignore`: a decoder in its initial state, fed
/// nothing yet and with no key event waiting to be processed.
#[verifier::external_body]
fn make_key_decoder() -> (d: KeyDecoder)
    ensures
        d.spec_fed() == Seq::<u8>::empty(),
        d.spec_pending() is None,
{
    let inner = Keyboard::new(ScancodeSet1::new(), layouts::Us104Key, pc_keyboard::HandleControl::Ignore);
    KeyDecoder { core: DecoderCore { inner }, fed: Ghost(Seq::empty()), pending: Ghost(None) }
}

#[verifier::external_type_specification]
#[verifier::external_body]
pub struct ExKeyEvent(KeyEvent);


#[verifier::external_type_specification]
#[verifier::external_body]
pub struct ExKeyboardError(pc_keyboard::Error);

/// Calls `pc_keyboard::Keyboard::add_byte`: feeds one scancode byte to the
/// decoder. It answers with a key event exactly when `completes_key_event`
/// holds of the bytes fed so far; the record of the bytes fed grows by
/// `byte`, and a returned event is recorded as waiting to be processed.
#[verifier::external_body]
fn decoder_add_byte(kb: &mut KeyDecoder, byte: u8) -> (r: Result<Option<KeyEvent>, pc_keyboard::Error>)
    requires
        old(kb).wf(),
    ensures
        final(kb).spec_fed() == old(kb).spec_fed().push(byte),
        (r matches Ok(Some(_))) == completes_key_event(final(kb).spec_fed()),
        final(kb).spec_pending() == (match r {
            Ok(Some(ev)) => Some(ev),
            _ => None,
        }),
{
    kb.core.inner.add_byte(byte)
}

/// Calls `pc_keyboard::Keyboard::process_keyevent` on the key event that
/// the last byte fed completed, and keeps the character of a
/// `DecodedKey::Unicode` result: `decoded_key` of the bytes fed. The event
/// is then processed.
#[verifier::external_body]
fn decoder_process_keyevent(kb: &mut KeyDecoder, ev: KeyEvent) -> (r: Option<char>)
    requires
        old(kb).spec_pending() == Some(ev),
    ensures
        final(kb).spec_fed() == old(kb).spec_fed(),
        final(kb).wf(),
        r == decoded_key(old(kb).spec_fed()),
{
    match kb.core.inner.process_keyevent(ev) {
        Some(pc_keyboard::DecodedKey::Unicode(c)) => Some(c),
        Some(pc_keyboard::DecodedKey::RawKey(_)) => None,
        None => None,
    }
}

/// The queued bytes after queueing the decoded key `key`: its byte when it
/// is an ASCII character, nothing otherwise.
pub open spec fn queue_key(q: Seq<u8>, key: Option<char>) -> Seq<u8> {
    match key {
        Some(c) => if (c as u32) < 128 {
            queue_push(q, (c as u32) as u8)
        } else {
            q
        },
        None => q,
    }
}

/// Feeds one scancode to the decoder, queues the ASCII character it
/// completes, if any, and returns the character the decoder produced
/// (`None` when the scancode completes no key, or a key with no character).
pub fn decode_scancode(decoder: &mut KeyDecoder, buf: &mut KeyBuffer, scancode: u8) -> (key: Option<
    char,
>)
    requires
        old(decoder).wf(),
        old(buf).wf(),
    ensures
        final(decoder).wf(),
        final(decoder).spec_fed() == old(decoder).spec_fed().push(scancode),
        key == spec_decode(final(decoder).spec_fed()),
        final(buf).wf(),
        final(buf)@ == queue_key(old(buf)@, key),
{
    if let Ok(Some(key_event)) = decoder_add_byte(decoder, scancode) {
        let key = decoder_process_keyevent(decoder, key_event);
        accept_key(buf, key);
        key
    } else {
        None
    }
}

/// The queue after pushing the bytes `xs` in order.
pub open spec fn queue_push_all(q: Seq<u8>, xs: Seq<u8>) -> Seq<u8>
    decreases xs.len(),
{
    if xs.len() == 0 {
        q
    } else {
        queue_push(queue_push_all(q, xs.drop_last()), xs.last())
    }
}

/// First in, first out: pushing onto a buffer that is not full leaves its
/// oldest byte in front (or makes the new byte the front of an empty one),
/// and popping afterwards is the same as popping first and pushing after.
pub proof fn law_push_pop_commute(q: Seq<u8>, b: u8)
    requires
        q.len() < key_buffer_capacity(),
    ensures
        queue_front(queue_push(q, b)) == (if q.len() == 0 {
            Some(b)
        } else {
            queue_front(q)
        }),
        q.len() > 0 ==> queue_pop(queue_push(q, b)) == queue_push(queue_pop(q), b),
        q.len() == 0 ==> queue_pop(queue_push(q, b)) == Seq::<u8>::empty(),
{
    if q.len() > 0 {
        assert(q.push(b).drop_first() =~= q.drop_first().push(b));
    } else {
        assert(q.push(b).drop_first() =~= Seq::<u8>::empty());
    }
}

/// Bytes come out in the order they went in: pushing up to the capacity
/// onto an empty buffer queues exactly those bytes.
pub proof fn law_push_all_in_order(xs: Seq<u8>)
    requires
        xs.len() <= key_buffer_capacity(),
    ensures
        queue_push_all(Seq::empty(), xs) == xs,
    decreases xs.len(),
{
    if xs.len() > 0 {
        law_push_all_in_order(xs.drop_last());
        assert(xs.drop_last().push(xs.last()) =~= xs);
    }
}

/// A full buffer drops what is pushed onto it.
pub proof fn law_full_buffer_drops(q: Seq<u8>, b: u8)
    requires
        q.len() >= key_buffer_capacity(),
    ensures
        queue_push(q, b) == q,
{
}

/// A read never takes more bytes than the buffer has room for or than are
/// queued, and what it leaves is the rest of the queue.
pub proof fn law_read_bounds(q: Seq<u8>, room: nat)
    ensures
        read_count(q, room) <= room,
        read_count(q, room) <= q.len(),
        q.subrange(0, read_count(q, room) as int) + q.skip(read_count(q, room) as int) == q,
{
    lemma_read_count_bounds(q, room);
    assert(q.subrange(0, read_count(q, room) as int) + q.skip(read_count(q, room) as int) =~= q);
}

} // verus!
