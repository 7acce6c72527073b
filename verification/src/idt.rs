//! Interrupt descriptor encoding.

use vstd::prelude::*;

verus! {

/// A 16-byte interrupt gate descriptor.
#[derive(Clone, Copy)]
pub struct IdtEntry {
    pub offset_low: u16,
    pub selector: u16,
    pub ist: u8,
    pub type_attr: u8,
    pub offset_mid: u16,
    pub offset_high: u32,
    pub reserved: u32,
}

/// Number of vectors.
pub const IDT_LEN: usize = 256;

impl IdtEntry {
    /// An absent gate.
    pub fn zeroed() -> (r: Self)
        ensures
            r.offset_low == 0 && r.selector == 0 && r.ist == 0 && r.type_attr == 0 && r.offset_mid == 0
                && r.offset_high == 0 && r.reserved == 0,
    {
        IdtEntry { offset_low: 0, selector: 0, ist: 0, type_attr: 0, offset_mid: 0, offset_high: 0, reserved: 0 }
    }

    /// Sets the entry to jump to `handler` through the kernel code segment,
    /// with type and attributes 0x8E and interrupt stack index 0.
    pub fn set_handler_addr(&mut self, handler: u64)
        ensures
            final(self).offset_low == handler % 0x1_0000,
            final(self).offset_mid == (handler / 0x1_0000) % 0x1_0000,
            final(self).offset_high == handler / 0x1_0000_0000,
            final(self).selector == crate::gdt::KERNEL_CODE_SELECTOR,
            final(self).ist == 0,
            final(self).type_attr == 0x8E,
            final(self).reserved == 0,
    {
        self.offset_low = (handler % 0x1_0000) as u16;
        self.offset_mid = ((handler / 0x1_0000) % 0x1_0000) as u16;
        self.offset_high = (handler / 0x1_0000_0000) as u32;
        self.selector = crate::gdt::KERNEL_CODE_SELECTOR;
        self.ist = 0;
        self.type_attr = 0x8E;
        self.reserved = 0;
    }
}

} // verus!
