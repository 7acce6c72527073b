pub mod wire;
pub mod checksum;
pub mod ethernet;
pub mod arp;
pub mod udp;
pub mod ipv4;
pub mod tcp;
pub mod dhcp;
pub mod pci;
pub mod e1000;
pub mod rtl8139;
pub mod echo;

use vstd::prelude::*;
use crate::text::{dotted_spec, push_dotted};
use crate::net::wire::push_slice;

verus! {

/// The kind of network card found.
#[derive(Debug, Clone, Copy, PartialEq, Eq, Structural)]
pub enum NicKind {
    NoNic,
    E1000,
    Rtl8139,
}

/// Interface address configuration.
#[derive(Debug, Clone, Copy)]
pub struct NetConfig {
    pub ip: [u8; 4],
    pub subnet: [u8; 4],
    pub gateway: [u8; 4],
    pub dns: [u8; 4],
}

impl NetConfig {
    /// The line that reports a configuration:
    /// `IP: a.b.c.d / mask: a.b.c.d / gw: a.b.c.d / dns: a.b.c.d`.
    pub open spec fn display_spec(self) -> Seq<u8> {
        seq![73u8, 80, 58, 32] + dotted_spec(self.ip)
            + seq![32u8, 47, 32, 109, 97, 115, 107, 58, 32] + dotted_spec(self.subnet)
            + seq![32u8, 47, 32, 103, 119, 58, 32] + dotted_spec(self.gateway)
            + seq![32u8, 47, 32, 100, 110, 115, 58, 32] + dotted_spec(self.dns)
    }

    /// The report line of `display_spec`, as bytes.
    pub fn display(&self) -> (r: Vec<u8>)
        ensures
            r@ == self.display_spec(),
    {
        let mut out: Vec<u8> = Vec::new();
        let ip_label: [u8; 4] = [73, 80, 58, 32];
        let mask_label: [u8; 9] = [32, 47, 32, 109, 97, 115, 107, 58, 32];
        let gw_label: [u8; 7] = [32, 47, 32, 103, 119, 58, 32];
        let dns_label: [u8; 8] = [32, 47, 32, 100, 110, 115, 58, 32];
        push_slice(&mut out, ip_label.as_slice());
        push_dotted(&mut out, self.ip);
        push_slice(&mut out, mask_label.as_slice());
        push_dotted(&mut out, self.subnet);
        push_slice(&mut out, gw_label.as_slice());
        push_dotted(&mut out, self.gateway);
        push_slice(&mut out, dns_label.as_slice());
        push_dotted(&mut out, self.dns);
        proof {
            assert(ip_label@ =~= seq![73u8, 80, 58, 32]);
            assert(mask_label@ =~= seq![32u8, 47, 32, 109, 97, 115, 107, 58, 32]);
            assert(gw_label@ =~= seq![32u8, 47, 32, 103, 119, 58, 32]);
            assert(dns_label@ =~= seq![32u8, 47, 32, 100, 110, 115, 58, 32]);
            assert(out@ =~= self.display_spec());
        }
        out
    }
}

} // verus!

verus! {

/// What the network layer knows about its card.
#[derive(Debug, Clone, Copy)]
pub struct NetStatus {
    pub kind: NicKind,
    pub link_up: bool,
    pub mac: [u8; 6],
    pub pci: Option<pci::PciDevice>,
}

/// The network layer's state: the card found at start-up and the
/// interface configuration, if any.
pub struct NetState {
    pub status: NetStatus,
    pub config: Option<NetConfig>,
}

impl NetState {
    /// No card, no configuration.
    pub fn new() -> (r: Self)
        ensures
            r.status.kind == NicKind::NoNic,
            !r.status.link_up,
            r.status.mac == [0u8, 0u8, 0u8, 0u8, 0u8, 0u8],
            r.status.pci is None,
            r.config is None,
    {
        NetState {
            status: NetStatus { kind: NicKind::NoNic, link_up: false, mac: [0u8, 0u8, 0u8, 0u8, 0u8, 0u8], pci: None },
            config: None,
        }
    }
}

/// Sets the interface configuration.
pub fn set_config(net: &mut NetState, cfg: NetConfig)
    ensures
        final(net).config == Some(cfg),
        final(net).status == old(net).status,
{
    net.config = Some(cfg);
}

/// The interface configuration, if set.
pub fn get_config(net: &NetState) -> (r: Option<NetConfig>)
    ensures
        r == net.config,
{
    net.config
}

/// The card status.
pub fn status(net: &NetState) -> (r: NetStatus)
    ensures
        r == net.status,
{
    net.status
}

/// The driver for a device: any Intel device is taken for an e1000, the
/// Realtek 8139 (10EC:8139) for an RTL8139, anything else is unsupported.
pub open spec fn nic_kind_spec(vendor: u16, device: u16) -> NicKind {
    if vendor == 0x8086 {
        NicKind::E1000
    } else if vendor == 0x10EC && device == 0x8139 {
        NicKind::Rtl8139
    } else {
        NicKind::NoNic
    }
}

/// The driver for a device (see `nic_kind_spec`).
pub fn nic_kind(dev: &pci::PciDevice) -> (r: NicKind)
    ensures
        r == nic_kind_spec(dev.vendor_id, dev.device_id),
{
    if dev.vendor_id == 0x8086 {
        NicKind::E1000
    } else if dev.vendor_id == 0x10EC && dev.device_id == 0x8139 {
        NicKind::Rtl8139
    } else {
        NicKind::NoNic
    }
}

/// The I/O port base in an I/O BAR (its two indicator bits cleared).
pub fn io_base_from_bar(bar0: u32) -> (r: u16)
    ensures
        r == ((bar0 & !0x3u32) as u16),
{
    (bar0 & !0x3u32) as u16
}

/// Records the card found on the bus: none leaves the state as it is; an
/// e1000 is down with its default MAC; an RTL8139 is up with `rtl_mac`,
/// the address its driver read at initialisation; an unsupported device is
/// recorded without MAC.
pub fn init(net: &mut NetState, dev: Option<pci::PciDevice>, rtl_mac: [u8; 6])
    ensures
        final(net).config == old(net).config,
        dev is None ==> final(net).status == old(net).status,
        dev matches Some(d) ==> final(net).status.pci == Some(d) && final(net).status.kind == nic_kind_spec(d.vendor_id, d.device_id)
            && match final(net).status.kind {
                NicKind::E1000 => !final(net).status.link_up && final(net).status.mac == e1000::e1000_default_mac(),
                NicKind::Rtl8139 => final(net).status.link_up && final(net).status.mac == rtl_mac,
                NicKind::NoNic => !final(net).status.link_up && final(net).status.mac == [0u8, 0u8, 0u8, 0u8, 0u8, 0u8],
            },
{
    let d = match dev {
        Some(d) => d,
        None => {
            return;
        },
    };
    let kind = nic_kind(&d);
    let st = match kind {
        NicKind::E1000 => NetStatus { kind, link_up: false, mac: e1000::default_mac(), pci: Some(d) },
        NicKind::Rtl8139 => NetStatus { kind, link_up: true, mac: rtl_mac, pci: Some(d) },
        NicKind::NoNic => NetStatus { kind, link_up: false, mac: [0u8, 0u8, 0u8, 0u8, 0u8, 0u8], pci: Some(d) },
    };
    net.status = st;
}

} // verus!
