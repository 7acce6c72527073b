//! The decisions of the ATA PIO driver (primary bus, 28-bit LBA): what the
//! status register says while waiting, and the task-file bytes of a
//! transfer. The port accesses themselves are made by the caller.

use vstd::prelude::*;

verus! {

pub const STATUS_ERR: u8 = 0x01;
pub const STATUS_DRQ: u8 = 0x08;
pub const STATUS_DRDY: u8 = 0x40;
pub const STATUS_BSY: u8 = 0x80;
pub const CMD_READ_SECTORS: u8 = 0x20;
pub const CMD_WRITE_SECTORS: u8 = 0x30;
pub const DRIVE_MASTER: u8 = 0xE0;
pub const SECTOR_SIZE: usize = 512;
/// Milliseconds a wait may last.
pub const WAIT_MS: u64 = 4000;

/// Why a transfer failed.
#[derive(Debug, Clone, Copy, PartialEq, Eq, Structural)]
pub enum AtaError {
    /// The error bit was set.
    Device,
    /// The drive did not become ready in time.
    Timeout,
    /// The drive was ready but had no data to move.
    NoData,
    /// The data request did not come in time.
    DrqTimeout,
    /// No sectors, or a buffer too small for them.
    BufferTooSmall,
}

impl AtaError {
    pub open spec fn text_spec(self) -> &'static str {
        match self {
            AtaError::Device => "ATA error",
            AtaError::Timeout => "ATA timeout",
            AtaError::NoData => "ATA no data",
            AtaError::DrqTimeout => "ATA DRQ timeout",
            AtaError::BufferTooSmall => "ATA: buffer too small",
        }
    }

    /// The message the driver reports.
    pub fn text(self) -> (r: &'static str)
        ensures
            r == self.text_spec(),
    {
        match self {
            AtaError::Device => "ATA error",
            AtaError::Timeout => "ATA timeout",
            AtaError::NoData => "ATA no data",
            AtaError::DrqTimeout => "ATA DRQ timeout",
            AtaError::BufferTooSmall => "ATA: buffer too small",
        }
    }
}

/// What one reading of the status register decides while waiting.
#[derive(Debug, Clone, Copy, PartialEq, Eq, Structural)]
pub enum Poll {
    /// Go on.
    Done,
    /// Stop with this error.
    Fail(AtaError),
    /// Read the status again (until the deadline).
    Again,
}

/// Waiting for the drive to be ready: the error bit fails, not busy and
/// ready succeeds, anything else waits.
pub open spec fn ready_poll_spec(status: u8) -> Poll {
    if status & STATUS_ERR != 0 {
        Poll::Fail(AtaError::Device)
    } else if status & STATUS_BSY == 0 && status & STATUS_DRDY != 0 {
        Poll::Done
    } else {
        Poll::Again
    }
}

pub fn ready_poll(status: u8) -> (r: Poll)
    ensures
        r == ready_poll_spec(status),
{
    if status & STATUS_ERR != 0 {
        Poll::Fail(AtaError::Device)
    } else if status & STATUS_BSY == 0 && status & STATUS_DRDY != 0 {
        Poll::Done
    } else {
        Poll::Again
    }
}

/// Waiting for a data request: the error bit fails, DRQ succeeds, a ready
/// drive that is not busy and requests nothing has no data, anything else
/// waits.
pub open spec fn drq_poll_spec(status: u8) -> Poll {
    if status & STATUS_ERR != 0 {
        Poll::Fail(AtaError::Device)
    } else if status & STATUS_DRQ != 0 {
        Poll::Done
    } else if status & STATUS_BSY == 0 && status & STATUS_DRDY != 0 {
        Poll::Fail(AtaError::NoData)
    } else {
        Poll::Again
    }
}

pub fn drq_poll(status: u8) -> (r: Poll)
    ensures
        r == drq_poll_spec(status),
{
    if status & STATUS_ERR != 0 {
        Poll::Fail(AtaError::Device)
    } else if status & STATUS_DRQ != 0 {
        Poll::Done
    } else if status & STATUS_BSY == 0 && status & STATUS_DRDY != 0 && status & STATUS_DRQ == 0 {
        Poll::Fail(AtaError::NoData)
    } else {
        Poll::Again
    }
}

/// Whether a wait begun at `start` has run past its deadline at `now`.
pub fn timed_out(start: u64, now: u64) -> (r: bool)
    requires
        start + WAIT_MS <= u64::MAX,
    ensures
        r == (now > start + WAIT_MS),
{
    now > start + WAIT_MS
}

/// A transfer of `count` sectors needs at least one sector and a buffer
/// of `count` * 512 bytes.
pub fn buffer_ok(count: u8, len: usize) -> (r: bool)
    ensures
        r == (count != 0 && len >= count * 512),
{
    count != 0 && len >= count as usize * SECTOR_SIZE
}

/// The bytes for the drive/head, sector count and LBA low, middle and high
/// registers: master drive with LBA bits 24..27, the count, then LBA bits
/// 0..7, 8..15 and 16..23.
pub open spec fn task_file_spec(lba: u32, count: u8) -> Seq<u8> {
    seq![
        (0xE0 | ((lba >> 24) & 0x0F)) as u8,
        count,
        (lba & 0xFF) as u8,
        ((lba >> 8) & 0xFF) as u8,
        ((lba >> 16) & 0xFF) as u8,
    ]
}

pub fn task_file(lba: u32, count: u8) -> (r: [u8; 5])
    ensures
        r@ == task_file_spec(lba, count),
{
    let r = [
        (0xE0 | ((lba >> 24) & 0x0F)) as u8,
        count,
        (lba & 0xFF) as u8,
        ((lba >> 8) & 0xFF) as u8,
        ((lba >> 16) & 0xFF) as u8,
    ];
    assert(r@ =~= task_file_spec(lba, count));
    r
}

/// A status of 0xFF means no drive is attached.
pub fn drive_present(status: u8) -> (r: bool)
    ensures
        r == (status != 0xFF),
{
    status != 0xFF
}

/// The sector address and sector count of file-system block `block`, for
/// blocks of `block_size` bytes (whole sectors, at most 255 of them).
pub fn block_sectors(block: u32, block_size: usize) -> (r: (u32, u8))
    requires
        512 <= block_size <= 255 * 512,
        block * (block_size / 512) <= u32::MAX,
    ensures
        r.1 == block_size / 512,
        r.0 == block * (block_size / 512),
{
    let spb = (block_size / SECTOR_SIZE) as u8;
    let lba = block * spb as u32;
    (lba, spb)
}

} // verus!
