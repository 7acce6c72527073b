//! Descriptor encodings of the global descriptor table.

use vstd::prelude::*;

verus! {

pub const ACCESS_CODE: u8 = 0x9A;
pub const ACCESS_DATA: u8 = 0x92;
pub const GRAN_4K_64: u8 = 0xAF;
pub const GRAN_DATA: u8 = 0xCF;
pub const KERNEL_CODE_SELECTOR: u16 = 0x08;
pub const KERNEL_DATA_SELECTOR: u16 = 0x10;
pub const TSS_SELECTOR: u16 = 0x28;

/// Size of the 64-bit task state segment in bytes.
pub const TSS_SIZE: usize = 104;

/// An 8-byte segment descriptor.
#[derive(Clone, Copy)]
pub struct GdtEntry {
    pub limit_low: u16,
    pub base_low: u16,
    pub base_middle: u8,
    pub access: u8,
    pub granularity: u8,
    pub base_high: u8,
}

impl GdtEntry {
    /// The null descriptor.
    pub fn null() -> (r: Self)
        ensures
            r.limit_low == 0 && r.base_low == 0 && r.base_middle == 0 && r.access == 0 && r.granularity == 0
                && r.base_high == 0,
    {
        GdtEntry { limit_low: 0, base_low: 0, base_middle: 0, access: 0, granularity: 0, base_high: 0 }
    }

    /// A descriptor with the base split over three fields and the low 16
    /// bits of the limit; the granularity byte is taken as given.
    pub fn new(base: u32, limit: u32, access: u8, granularity: u8) -> (r: Self)
        ensures
            r.limit_low == limit % 0x1_0000,
            r.base_low == base % 0x1_0000,
            r.base_middle == (base / 0x1_0000) % 256,
            r.base_high == base / 0x100_0000,
            r.access == access,
            r.granularity == granularity,
    {
        GdtEntry {
            limit_low: (limit % 0x1_0000) as u16,
            base_low: (base % 0x1_0000) as u16,
            base_middle: ((base / 0x1_0000) % 256) as u8,
            access,
            granularity,
            base_high: (base / 0x100_0000) as u8,
        }
    }
}

/// The 16-byte descriptor of the task state segment.
#[derive(Clone, Copy)]
pub struct TssDescriptor {
    pub limit_low: u16,
    pub base_low: u16,
    pub base_middle: u8,
    pub access: u8,
    pub granularity: u8,
    pub base_high: u8,
    pub base_upper: u32,
    pub reserved: u32,
}

impl TssDescriptor {
    /// The descriptor of a TSS at address `base`: an available 64-bit TSS
    /// (type 0x89) whose limit is its size minus one.
    pub fn from_tss(base: u64) -> (r: Self)
        ensures
            r.limit_low == TSS_SIZE - 1,
            r.base_low == base % 0x1_0000,
            r.base_middle == (base / 0x1_0000) % 256,
            r.base_high == (base / 0x100_0000) % 256,
            r.base_upper == base / 0x1_0000_0000,
            r.access == 0x89,
            r.granularity == 0,
            r.reserved == 0,
    {
        TssDescriptor {
            limit_low: (TSS_SIZE - 1) as u16,
            base_low: (base % 0x1_0000) as u16,
            base_middle: ((base / 0x1_0000) % 256) as u8,
            access: 0x89,
            granularity: 0x00,
            base_high: ((base / 0x100_0000) % 256) as u8,
            base_upper: (base / 0x1_0000_0000) as u32,
            reserved: 0,
        }
    }
}

} // verus!
