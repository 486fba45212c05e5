use vstd::prelude::*;

verus! {

/// Bytes per ATA sector.
pub const SECTOR_SIZE: usize = 512;

/// Status register: the device is busy.
pub const STATUS_BSY: u8 = 0x80;

/// Status register: the device is ready for a command.
pub const STATUS_DRDY: u8 = 0x40;

/// Status register: data is ready to be transferred.
pub const STATUS_DRQ: u8 = 0x08;

/// Status register: the last command failed.
pub const STATUS_ERR: u8 = 0x01;

/// The most sectors one READ SECTORS command transfers.
pub const MAX_SECTORS_PER_READ: usize = 256;

/// Data words per sector.
pub const WORDS_PER_SECTOR: usize = 256;

/// Primary channel: data register.
pub const PORT_DATA: u16 = 0x1F0;

/// Primary channel: sector count register.
pub const PORT_SECTOR_COUNT: u16 = 0x1F2;

/// Primary channel: LBA bits 0..8.
pub const PORT_LBA_LOW: u16 = 0x1F3;

/// Primary channel: LBA bits 8..16.
pub const PORT_LBA_MID: u16 = 0x1F4;

/// Primary channel: LBA bits 16..24.
pub const PORT_LBA_HIGH: u16 = 0x1F5;

/// Primary channel: drive select register.
pub const PORT_DRIVE_SELECT: u16 = 0x1F6;

/// Primary channel: command (write) and status (read) register.
pub const PORT_COMMAND_STATUS: u16 = 0x1F7;

/// Primary channel: device control register.
pub const PORT_DEVICE_CONTROL: u16 = 0x3F6;

/// Device control value that masks the drive's interrupts.
pub const CONTROL_NIEN: u8 = 0x02;

/// Command: read sectors (LBA28).
pub const CMD_READ_SECTORS: u8 = 0x20;

/// Command: identify device.
pub const CMD_IDENTIFY: u8 = 0xEC;

/// How many status reads a probe waits for IDENTIFY to answer.
pub const PROBE_POLLS: u32 = 100_000;

/// How many status reads a transfer waits for the device.
pub const WAIT_POLLS: u32 = 1_000_000;

/// How many status reads make the 400 ns settle delay.
pub const SETTLE_READS: u32 = 4;

/// What answered on an ATA channel position.
#[derive(Debug, Clone, Copy, PartialEq, Eq, Structural)]
pub enum DeviceType {
    Ata,
    Atapi,
    Absent,
}

/// Why a sector transfer failed.
#[derive(Debug, Clone, Copy, PartialEq, Eq, Structural)]
pub enum AtaError {
    NotPresent,
    BadBufferLength,
    BadSectorCount,
    BusyTimeout,
    ReadFailed,
    DrqTimeout,
    ReadyTimeout,
}

impl AtaError {
    /// The driver's message for this error.
    pub fn message(&self) -> (r: &'static str)
        ensures
            r@ == match *self {
                AtaError::NotPresent => "ata: drive not present"@,
                AtaError::BadBufferLength => "ata: buffer must be multiple of sector size"@,
                AtaError::BadSectorCount => "ata: invalid sector count (1-256)"@,
                AtaError::BusyTimeout => "ata: BSY timeout"@,
                AtaError::ReadFailed => "ata: ERR during read"@,
                AtaError::DrqTimeout => "ata: DRQ timeout"@,
                AtaError::ReadyTimeout => "ata: DRDY timeout"@,
            },
    {
        match self {
            AtaError::NotPresent => "ata: drive not present",
            AtaError::BadBufferLength => "ata: buffer must be multiple of sector size",
            AtaError::BadSectorCount => "ata: invalid sector count (1-256)",
            AtaError::BusyTimeout => "ata: BSY timeout",
            AtaError::ReadFailed => "ata: ERR during read",
            AtaError::DrqTimeout => "ata: DRQ timeout",
            AtaError::ReadyTimeout => "ata: DRDY timeout",
        }
    }
}

/// One of the two drive positions on the primary ATA channel.
pub struct Drive {
    master: bool,
    present: bool,
}

/// What one read of the status register tells a poll loop that waits for data.
#[derive(Debug, Clone, Copy, PartialEq, Eq, Structural)]
pub enum DataPoll {
    /// Keep polling.
    Wait,
    /// Data can be transferred.
    Ready,
    /// The command failed.
    Failed,
}

/// The poll decision for the status byte `s` while waiting for data: busy
/// means wait; otherwise DRQ means ready, then ERR means failed.
pub open spec fn spec_data_poll(s: u8) -> DataPoll {
    if s & STATUS_BSY != 0 {
        DataPoll::Wait
    } else if s & STATUS_DRQ != 0 {
        DataPoll::Ready
    } else if s & STATUS_ERR != 0 {
        DataPoll::Failed
    } else {
        DataPoll::Wait
    }
}

/// The poll decision for the status byte `s` after IDENTIFY: busy means
/// wait; otherwise ERR means the IDENTIFY failed, then DRQ means data.
pub open spec fn spec_identify_poll(s: u8) -> DataPoll {
    if s & STATUS_BSY != 0 {
        DataPoll::Wait
    } else if s & STATUS_ERR != 0 {
        DataPoll::Failed
    } else if s & STATUS_DRQ != 0 {
        DataPoll::Ready
    } else {
        DataPoll::Wait
    }
}

/// Decides a status byte read while waiting for data after READ SECTORS.
pub fn data_poll(s: u8) -> (p: DataPoll)
    ensures
        p == spec_data_poll(s),
{
    if s & STATUS_BSY == 0 {
        if s & STATUS_DRQ != 0 {
            return DataPoll::Ready;
        }
        if s & STATUS_ERR != 0 {
            return DataPoll::Failed;
        }
    }
    DataPoll::Wait
}

/// Decides a status byte read while waiting for the answer to IDENTIFY.
pub fn identify_poll(s: u8) -> (p: DataPoll)
    ensures
        p == spec_identify_poll(s),
{
    if s & STATUS_BSY == 0 {
        if s & STATUS_ERR != 0 {
            return DataPoll::Failed;
        }
        if s & STATUS_DRQ != 0 {
            return DataPoll::Ready;
        }
    }
    DataPoll::Wait
}

/// Whether a status byte shows the device idle and ready for a command.
pub fn ready_poll(s: u8) -> (b: bool)
    ensures
        b == (s & STATUS_BSY == 0 && s & STATUS_DRDY != 0),
{
    s & STATUS_BSY == 0 && s & STATUS_DRDY != 0
}

/// A status of zero right after IDENTIFY: no device on the channel.
pub fn no_device_status(s: u8) -> (b: bool)
    ensures
        b == (s == 0),
{
    s == 0
}

/// Whether a status byte shows the device not busy.
pub fn busy_clear(s: u8) -> (b: bool)
    ensures
        b == (s & STATUS_BSY == 0),
{
    s & STATUS_BSY == 0
}

/// The device type that a failed IDENTIFY reports through the LBA mid and
/// high registers: the ATAPI signature 0x14/0xEB, anything else is no drive.
pub fn signature_device(mid: u8, high: u8) -> (d: DeviceType)
    ensures
        d == (if mid == 0x14 && high == 0xEB {
            DeviceType::Atapi
        } else {
            DeviceType::Absent
        }),
{
    if mid == 0x14 && high == 0xEB {
        DeviceType::Atapi
    } else {
        DeviceType::Absent
    }
}

/// The low LBA register value for `lba`.
pub fn lba_low(lba: u32) -> (b: u8)
    ensures
        b == lba % 0x100,
{
    (lba % 0x100) as u8
}

/// The middle LBA register value for `lba`.
pub fn lba_mid(lba: u32) -> (b: u8)
    ensures
        b == (lba / 0x100) % 0x100,
{
    ((lba / 0x100) % 0x100) as u8
}

/// The high LBA register value for `lba`.
pub fn lba_high(lba: u32) -> (b: u8)
    ensures
        b == (lba / 0x1_0000) % 0x100,
{
    ((lba / 0x1_0000) % 0x100) as u8
}

/// The sector count register value for a transfer of `sectors` sectors
/// (1 to 256); 256 is written as 0.
pub fn sector_count_byte(sectors: usize) -> (b: u8)
    requires
        1 <= sectors <= MAX_SECTORS_PER_READ,
    ensures
        b == sectors % 256,
{
    (sectors % 256) as u8
}

/// The two bytes of a data word, in the order they land in the buffer.
pub fn word_bytes(val: u16) -> (r: (u8, u8))
    ensures
        r.0 == val % 256,
        r.1 == val / 256,
        r.0 + 256 * r.1 == val,
{
    ((val % 256) as u8, (val / 256) as u8)
}

impl Drive {
    /// Whether this is the master position.
    pub closed spec fn spec_master(&self) -> bool {
        self.master
    }

    /// Whether a probe found an ATA drive here.
    pub closed spec fn spec_present(&self) -> bool {
        self.present
    }

    /// The master drive, not yet probed.
    pub fn new_master() -> (d: Self)
        ensures
            d.spec_master(),
            !d.spec_present(),
    {
        Drive { master: true, present: false }
    }

    /// The slave drive, not yet probed.
    pub fn new_slave() -> (d: Self)
        ensures
            !d.spec_master(),
            !d.spec_present(),
    {
        Drive { master: false, present: false }
    }

    /// Whether this is the master position.
    pub fn is_master(&self) -> (b: bool)
        ensures
            b == self.spec_master(),
    {
        self.master
    }

    /// Whether a probe found an ATA drive here.
    pub fn is_present(&self) -> (b: bool)
        ensures
            b == self.spec_present(),
    {
        self.present
    }

    /// Records that IDENTIFY answered with data: an ATA drive is here.
    pub fn mark_present(&mut self)
        ensures
            final(self).spec_present(),
            final(self).spec_master() == old(self).spec_master(),
    {
        self.present = true;
    }

    /// The drive select value for IDENTIFY.
    pub fn identify_select(&self) -> (b: u8)
        ensures
            b == (if self.spec_master() {
                0xA0u8
            } else {
                0xB0u8
            }),
    {
        if self.master {
            0xA0
        } else {
            0xB0
        }
    }

    /// The drive select value for an LBA28 transfer at `lba`: LBA mode, the
    /// drive bit, and LBA bits 24..28.
    pub fn transfer_select(&self, lba: u32) -> (b: u8)
        ensures
            b == 0xE0 + (if self.spec_master() {
                0int
            } else {
                0x10int
            }) + (lba / 0x100_0000) % 0x10,
    {
        let master_bit: u8 = if self.master {
            0
        } else {
            0x10
        };
        0xE0 + master_bit + ((lba / 0x100_0000) % 0x10) as u8
    }

    /// Checks a transfer into a buffer of `buf_len` bytes before any port is
    /// touched, and gives the number of sectors it covers.
    pub fn check_read(&self, buf_len: usize) -> (r: Result<usize, AtaError>)
        ensures
            !self.spec_present() ==> r == Err::<usize, AtaError>(AtaError::NotPresent),
            self.spec_present() && buf_len % SECTOR_SIZE != 0 ==> r == Err::<usize, AtaError>(
                AtaError::BadBufferLength,
            ),
            self.spec_present() && buf_len % SECTOR_SIZE == 0 && (buf_len / SECTOR_SIZE == 0
                || buf_len / SECTOR_SIZE > MAX_SECTORS_PER_READ) ==> r == Err::<usize, AtaError>(
                AtaError::BadSectorCount,
            ),
            self.spec_present() && buf_len % SECTOR_SIZE == 0 && 1 <= buf_len / SECTOR_SIZE
                <= MAX_SECTORS_PER_READ ==> r == Ok::<usize, AtaError>(buf_len / SECTOR_SIZE),
    {
        if !self.present {
            return Err(AtaError::NotPresent);
        }
        let sectors = buf_len / SECTOR_SIZE;
        if buf_len % SECTOR_SIZE != 0 {
            return Err(AtaError::BadBufferLength);
        }
        if sectors == 0 || sectors > MAX_SECTORS_PER_READ {
            return Err(AtaError::BadSectorCount);
        }
        Ok(sectors)
    }
}

/// The register writes that start a READ SECTORS of `sectors` sectors at
/// `lba`, in order, once the drive is selected: count, the three LBA
/// bytes, then the command.
pub open spec fn spec_read_command(lba: u32, sectors: usize) -> Seq<(u16, u8)> {
    seq![
        (PORT_SECTOR_COUNT, (sectors % 256) as u8),
        (PORT_LBA_LOW, (lba % 0x100) as u8),
        (PORT_LBA_MID, ((lba / 0x100) % 0x100) as u8),
        (PORT_LBA_HIGH, ((lba / 0x1_0000) % 0x100) as u8),
        (PORT_COMMAND_STATUS, CMD_READ_SECTORS),
    ]
}

/// The register writes that start a READ SECTORS.
pub fn read_command(lba: u32, sectors: usize) -> (w: Vec<(u16, u8)>)
    requires
        1 <= sectors <= MAX_SECTORS_PER_READ,
    ensures
        w@ == spec_read_command(lba, sectors),
{
    let w = vec![
        (PORT_SECTOR_COUNT, sector_count_byte(sectors)),
        (PORT_LBA_LOW, lba_low(lba)),
        (PORT_LBA_MID, lba_mid(lba)),
        (PORT_LBA_HIGH, lba_high(lba)),
        (PORT_COMMAND_STATUS, CMD_READ_SECTORS),
    ];
    assert(w@ =~= spec_read_command(lba, sectors));
    w
}

/// Stores data word `i` of sector `s` into `buffer` at `s * 512 + i * 2`,
/// low byte first.
pub fn store_word(buffer: &mut [u8], s: usize, i: usize, val: u16)
    requires
        i < 256,
        (s + 1) * SECTOR_SIZE <= old(buffer)@.len(),
    ensures
        final(buffer)@ == old(buffer)@.update(s * 512 + i * 2, (val % 256) as u8).update(
            s * 512 + i * 2 + 1,
            (val / 256) as u8,
        ),
{
    let off = s * SECTOR_SIZE + i * 2;
    let (lo, hi) = word_bytes(val);
    buffer[off] = lo;
    buffer[off + 1] = hi;
}


/// The LBA28 registers together hold the whole address: the low, middle
/// and high LBA registers and the low nibble of the drive select register
/// give back any address below 2^28.
pub proof fn law_lba28_registers(lba: u32, master: bool)
    requires
        lba < 0x1000_0000,
    ensures
        ({
            let select = 0xE0 + (if master {
                0int
            } else {
                0x10int
            }) + (lba / 0x100_0000) % 0x10;
            lba % 0x100 + 0x100 * ((lba / 0x100) % 0x100) + 0x1_0000 * ((lba / 0x1_0000) % 0x100)
                + 0x100_0000 * (select % 0x10) == lba
        }),
{
}

} // verus!
