//! Intel e1000 skeleton: no transmit or receive path yet.

use vstd::prelude::*;
use crate::net::pci::PciDevice;

verus! {

/// An e1000 card: its MMIO base and MAC address.
pub struct E1000 {
    pub mmio_base: u32,
    pub mac: [u8; 6],
}

/// QEMU's default e1000 MAC address.
pub open spec fn e1000_default_mac() -> [u8; 6] {
    [0x52u8, 0x54u8, 0x00u8, 0x12u8, 0x34u8, 0x56u8]
}

/// QEMU's default e1000 MAC address.
pub fn default_mac() -> (r: [u8; 6])
    ensures
        r == e1000_default_mac(),
{
    [0x52, 0x54, 0x00, 0x12, 0x34, 0x56]
}

/// The card's MAC address (the default; the EEPROM is not read).
pub fn probe_mac(pci: PciDevice) -> (r: [u8; 6])
    ensures
        r == e1000_default_mac(),
{
    default_mac()
}

impl E1000 {
    /// A card whose BAR0 (configuration offset 0x10) reads `bar0`: the
    /// MMIO base is BAR0 without its four flag bits.
    pub fn new(pci: PciDevice, bar0: u32) -> (r: Self)
        ensures
            r.mmio_base == bar0 & !0xFu32,
            r.mac == e1000_default_mac(),
    {
        E1000 { mmio_base: bar0 & !0xFu32, mac: probe_mac(pci) }
    }

    /// Resetting the card is not implemented; nothing changes.
    pub fn reset(&self) {
    }

    /// Transmission is not implemented: always `Err(())`.
    pub fn send(&self, frame: &[u8]) -> (r: Result<(), ()>)
        ensures
            r is Err,
    {
        Err(())
    }

    /// Reception is not implemented: always `None`.
    pub fn poll_rx(&self) -> (r: Option<Vec<u8>>)
        ensures
            r is None,
    {
        None
    }
}

} // verus!
