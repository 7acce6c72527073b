//! PCI configuration space: addressing and device records. The port
//! accesses themselves are the caller's.

use vstd::prelude::*;

verus! {

pub const CONFIG_ADDRESS: u16 = 0xCF8;
pub const CONFIG_DATA: u16 = 0xCFC;

/// PCI class of network controllers.
pub const CLASS_NETWORK: u8 = 0x02;

/// A function found on the bus.
#[derive(Debug, Clone, Copy)]
pub struct PciDevice {
    pub bus: u8,
    pub slot: u8,
    pub func: u8,
    pub vendor_id: u16,
    pub device_id: u16,
    pub class: u8,
    pub subclass: u8,
}

/// The CONFIG_ADDRESS word selecting a register: enable bit, bus, slot,
/// function and the dword-aligned offset.
pub fn pci_config_address(bus: u8, slot: u8, func: u8, offset: u8) -> (r: u32)
    ensures
        r == (((bus as u32) << 16u32) | ((slot as u32) << 11u32) | ((func as u32) << 8u32) | ((offset as u32) & 0xFCu32)
            | 0x8000_0000u32),
        slot < 32 && func < 8 ==> r == 0x8000_0000 + bus * 0x1_0000 + slot * 0x800 + func * 0x100 + (offset / 4) * 4,
{
    let b = bus as u32;
    let s = slot as u32;
    let f = func as u32;
    let o = offset as u32;
    let r = (b << 16u32) | (s << 11u32) | (f << 8u32) | (o & 0xFCu32) | 0x8000_0000u32;
    proof {
        if slot < 32 && func < 8 {
            assert(b < 256 && s < 32 && f < 8 && o < 256 ==> (b << 16u32) | (s << 11u32) | (f << 8u32) | (o & 0xFCu32)
                | 0x8000_0000u32 == 0x8000_0000u32 + b * 0x1_0000u32 + s * 0x800u32 + f * 0x100u32 + (o / 4u32) * 4u32)
                by (bit_vector);
        }
    }
    r
}

/// The device a function reports, from its first configuration dword
/// (vendor in the low half, device in the high half) and the class dword
/// at offset 8; `None` when the vendor reads 0xFFFF (no function).
pub fn read_device(bus: u8, slot: u8, func: u8, id_dword: u32, class_dword: u32) -> (r: Option<PciDevice>)
    ensures
        id_dword % 0x1_0000 == 0xFFFF <==> r is None,
        r matches Some(d) ==> d == (PciDevice {
            bus,
            slot,
            func,
            vendor_id: (id_dword % 0x1_0000) as u16,
            device_id: (id_dword / 0x1_0000) as u16,
            class: (class_dword / 0x100_0000) as u8,
            subclass: ((class_dword / 0x1_0000) % 256) as u8,
        }),
{
    let vendor = (id_dword % 0x1_0000) as u16;
    if vendor == 0xFFFF {
        return None;
    }
    let device = (id_dword / 0x1_0000) as u16;
    let class = (class_dword / 0x100_0000) as u8;
    let subclass = ((class_dword / 0x1_0000) % 256) as u8;
    Some(PciDevice { bus, slot, func, vendor_id: vendor, device_id: device, class, subclass })
}

/// The device function 0 of `slot` on bus 0 reports, from its two
/// configuration dwords (see `read_device`).
pub open spec fn device_at(slot: u8, id_dword: u32, class_dword: u32) -> Option<PciDevice> {
    if id_dword % 0x1_0000 == 0xFFFF {
        None
    } else {
        Some(PciDevice {
            bus: 0,
            slot,
            func: 0,
            vendor_id: (id_dword % 0x1_0000) as u16,
            device_id: (id_dword / 0x1_0000) as u16,
            class: (class_dword / 0x100_0000) as u8,
            subclass: ((class_dword / 0x1_0000) % 256) as u8,
        })
    }
}

/// The devices found in the first `n` slots, in slot order.
pub open spec fn scan_spec(reads: Seq<(u32, u32)>, n: nat) -> Seq<PciDevice>
    decreases n,
{
    if n == 0 {
        Seq::empty()
    } else {
        let prev = scan_spec(reads, (n - 1) as nat);
        match device_at((n - 1) as u8, reads[n - 1].0, reads[n - 1].1) {
            Some(d) => prev.push(d),
            None => prev,
        }
    }
}

/// The devices present among the functions 0 of bus 0, given the two
/// configuration dwords read from each slot in order: slot `k`'s device,
/// for each slot whose vendor does not read 0xFFFF, in slot order.
pub fn scan_bus0(reads: &[(u32, u32)]) -> (v: Vec<PciDevice>)
    requires
        reads@.len() <= 256,
    ensures
        v@ == scan_spec(reads@, reads@.len()),
        v@.len() <= reads@.len(),
        forall|i: int| 0 <= i < v@.len() ==> #[trigger] v@[i].bus == 0 && v@[i].func == 0
            && v@[i].vendor_id != 0xFFFF,
{
    let mut devices: Vec<PciDevice> = Vec::new();
    let mut slot: usize = 0;
    while slot < reads.len()
        invariant
            slot <= reads@.len() <= 256,
            devices@ == scan_spec(reads@, slot as nat),
            devices@.len() <= slot,
            forall|i: int| 0 <= i < devices@.len() ==> #[trigger] devices@[i].bus == 0 && devices@[i].func == 0
                && devices@[i].vendor_id != 0xFFFF,
        decreases reads@.len() - slot,
    {
        let (a, b) = reads[slot];
        let found = read_device(0, slot as u8, 0, a, b);
        assert(found == device_at(slot as u8, a, b));
        if let Some(dev) = found {
            devices.push(dev);
        }
        slot = slot + 1;
    }
    devices
}

/// The first network controller (class 0x02) among `devices`.
pub fn find_network_on_bus0(devices: &[PciDevice]) -> (r: Option<PciDevice>)
    ensures
        r is None <==> forall|i: int| 0 <= i < devices@.len() ==> #[trigger] devices@[i].class != CLASS_NETWORK,
        r matches Some(d) ==> exists|i: int| 0 <= i < devices@.len() && devices@[i] == d && d.class == CLASS_NETWORK
            && forall|j: int| 0 <= j < i ==> #[trigger] devices@[j].class != CLASS_NETWORK,
{
    let mut i: usize = 0;
    while i < devices.len()
        invariant
            i <= devices@.len(),
            forall|j: int| 0 <= j < i ==> #[trigger] devices@[j].class != CLASS_NETWORK,
        decreases devices@.len() - i,
    {
        if devices[i].class == CLASS_NETWORK {
            return Some(devices[i]);
        }
        i = i + 1;
    }
    None
}

/// Configuration offset of base address register `bar`.
pub fn bar_offset(bar: u8) -> (r: u8)
    requires
        bar < 60,
    ensures
        r == 0x10 + bar * 4,
{
    0x10 + bar * 4
}

/// The command register with I/O space (bit 0) and bus mastering (bit 2) enabled.
pub fn bus_master_command(cmd: u32) -> (r: u32)
    ensures
        r == cmd | 0x05u32,
{
    cmd | 0x05u32
}

} // verus!
