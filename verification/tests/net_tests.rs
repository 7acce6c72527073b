use kernel_core::net::checksum::checksum;
use kernel_core::net::ethernet::{EthernetFrame, ETHERTYPE_ARP, ETHERTYPE_IPV4};
use kernel_core::net::arp::ArpPacket;
use kernel_core::net::ipv4::Ipv4Packet;
use kernel_core::net::udp::UdpHeader;
use kernel_core::net::tcp::{self, TcpHeader, TcpState, TcpTable, TxContext, SYN, ACK, PSH, FIN, RST, seq_lt, seq_le, tcp_checksum};
use kernel_core::net::dhcp::{build_dhcp_msg, parse_dhcp_options, parse_dhcp_reply, DhcpClient, DhcpStep};
use kernel_core::net::echo::{echo_request, ping_frame};
use kernel_core::net::pci::{pci_config_address, read_device, scan_bus0, find_network_on_bus0, bar_offset, bus_master_command};
use kernel_core::net::{nic_kind, io_base_from_bar, NicKind, NetConfig, NetState, set_config, get_config};
use kernel_core::net::rtl8139::{mac_from_regs, loopback_tcr, tx_registers, tx_length_ok};
use kernel_core::shell::netcmd::{who_has, arp_reply_from, echo_reply_from, local_ip, gateway_ip, wait_step, WaitFor, WaitVerdict};

#[test]
fn internet_checksum_example() {
    assert_eq!(checksum(&[0x00, 0x01, 0xf2, 0x03, 0xf4, 0xf5, 0xf6, 0xf7]), 0x220d);
    assert_eq!(checksum(&[0xff]), 0x00ff);
}

#[test]
fn ethernet_build_and_parse() {
    let mut out = [0u8; 64];
    let n = EthernetFrame::build([1, 2, 3, 4, 5, 6], [7, 8, 9, 10, 11, 12], ETHERTYPE_ARP, &[0xAA; 46], &mut out);
    assert_eq!(n, Some(60));
    assert_eq!(&out[12..14], &[0x08, 0x06]);
    let f = EthernetFrame::parse(&out[..60]).unwrap();
    assert_eq!(f.dst, [1, 2, 3, 4, 5, 6]);
    assert_eq!(f.src, [7, 8, 9, 10, 11, 12]);
    assert_eq!(f.ethertype, ETHERTYPE_ARP);
    assert_eq!(f.payload.len(), 46);
    let short = EthernetFrame::parse(&out[..14]).unwrap();
    assert_eq!(short.payload.len(), 0);
    assert!(EthernetFrame::parse(&out[..13]).is_none());
    let arp_frame = who_has([0x52, 0x54, 0, 0x12, 0x34, 0x56], [10, 0, 2, 15], [10, 0, 2, 2]);
    assert_eq!(arp_frame.len(), 42);
    let g = EthernetFrame::parse(&arp_frame).unwrap();
    assert_eq!(g.dst, [0xFF; 6]);
    assert_eq!(g.ethertype, ETHERTYPE_ARP);
    assert_eq!(g.payload.len(), 28);
    let mut small = [0u8; 20];
    assert_eq!(EthernetFrame::build([0; 6], [0; 6], 0x0800, &[1; 10], &mut small), None);
}

#[test]
fn arp_request_round_trip() {
    let mut buf = [0u8; 28];
    assert_eq!(ArpPacket::build_request([1, 2, 3, 4, 5, 6], [10, 0, 2, 15], [10, 0, 2, 2], &mut buf), Some(28));
    let p = ArpPacket::parse(&buf).unwrap();
    assert_eq!(p.opcode, 1);
    assert_eq!(p.sender_mac, [1, 2, 3, 4, 5, 6]);
    assert_eq!(p.sender_ip, [10, 0, 2, 15]);
    assert_eq!(p.target_mac, [0; 6]);
    assert_eq!(p.target_ip, [10, 0, 2, 2]);
    let mut short = [0u8; 27];
    assert_eq!(ArpPacket::build_request([0; 6], [0; 4], [0; 4], &mut short), None);
    buf[4] = 7;
    assert!(ArpPacket::parse(&buf).is_none());
}

#[test]
fn ipv4_header_checksum_verifies() {
    let mut buf = [0u8; 20];
    assert_eq!(Ipv4Packet::build([10, 0, 2, 15], [10, 0, 2, 2], 1, 18, &mut buf), Some(20));
    assert_eq!(buf[0], 0x45);
    assert_eq!(&buf[2..4], &[0, 38]);
    assert_eq!(buf[8], 64);
    assert_eq!(checksum(&buf), 0);
    let mut pkt = buf.to_vec();
    pkt.extend_from_slice(&[9; 18]);
    let p = Ipv4Packet::parse(&pkt).unwrap();
    assert_eq!(p.version, 4);
    assert_eq!(p.header_len, 20);
    assert_eq!(p.total_len, 38);
    assert_eq!(p.protocol, 1);
    assert_eq!(p.src, [10, 0, 2, 15]);
    assert_eq!(p.dst, [10, 0, 2, 2]);
    assert_eq!(p.payload.len(), 18);
    assert!(Ipv4Packet::parse(&pkt[..19]).is_none());
}

#[test]
fn udp_build_and_parse() {
    let mut buf = [0u8; 12];
    assert_eq!(UdpHeader::build(68, 67, b"abcd", &mut buf), Some(12));
    let u = UdpHeader::parse(&buf).unwrap();
    assert_eq!(u.src_port, 68);
    assert_eq!(u.dst_port, 67);
    assert_eq!(u.length, 12);
    assert_eq!(u.payload, b"abcd");
}

#[test]
fn tcp_sequence_comparison_wraps() {
    assert!(seq_lt(1, 2));
    assert!(seq_lt(0xFFFF_FFF0, 5));
    assert!(seq_lt(5, 5));
    assert!(!seq_lt(6, 5));
    assert!(seq_le(5, 5));
    assert!(!seq_le(6, 5));
}

#[test]
fn tcp_segment_build_parse_and_checksum() {
    let mut out = [0u8; 25];
    let n = TcpHeader::build(1025, 80, 100, 200, PSH | ACK, 8192, [10, 0, 2, 15], [10, 0, 2, 2], b"hello", &mut out);
    assert_eq!(n, Some(25));
    let h = TcpHeader::parse(&out).unwrap();
    assert_eq!((h.src_port, h.dst_port, h.seq, h.ack), (1025, 80, 100, 200));
    assert_eq!(h.flags, PSH | ACK);
    assert_eq!(h.data_offset, 20);
    assert_eq!(h.window, 8192);
    assert_eq!(h.payload, b"hello");
    assert_eq!(tcp_checksum([10, 0, 2, 15], [10, 0, 2, 2], &out), 0);
}

fn syn_ack(seq: u32, ack: u32) -> Vec<u8> {
    let mut buf = [0u8; 20];
    TcpHeader::build(80, 1025, seq, ack, SYN | ACK, 8192, [10, 0, 2, 2], [10, 0, 2, 15], &[], &mut buf).unwrap();
    buf.to_vec()
}

#[test]
fn tcp_active_open_send_and_receive() {
    let mut table = TcpTable::new();
    let mut ctx = TxContext { now: 1000, configured: true, sent: Vec::new() };
    assert_eq!(tcp::connect(&mut table, 1025, [10, 0, 2, 2], 80, &mut ctx), Ok(0));
    assert_eq!(ctx.sent.len(), 1);
    assert_eq!(ctx.sent[0].flags, SYN);
    assert_eq!(ctx.sent[0].seq, 1000);
    assert_eq!(ctx.sent[0].ack, 0);
    assert_eq!(tcp::status(&table, 0).unwrap().0, TcpState::SynSent);

    tcp::receive(&mut table, [10, 0, 2, 2], [10, 0, 2, 15], &syn_ack(5000, 1001), &mut ctx);
    let (state, lport, rip, rport, _) = tcp::status(&table, 0).unwrap();
    assert_eq!((state, lport, rip, rport), (TcpState::Established, 1025, [10, 0, 2, 2], 80));
    assert_eq!(ctx.sent.len(), 2);
    assert_eq!(ctx.sent[1].flags, ACK);
    assert_eq!(ctx.sent[1].ack, 5001);

    assert_eq!(tcp::send(&mut table, 0, b"hello", &mut ctx), Ok(5));
    let last = ctx.sent.last().unwrap();
    assert_eq!(last.flags, PSH | ACK);
    assert_eq!(last.payload, b"hello".to_vec());

    let mut data = [0u8; 22];
    TcpHeader::build(80, 1025, 5001, 1006, PSH | ACK, 8192, [10, 0, 2, 2], [10, 0, 2, 15], b"hi", &mut data).unwrap();
    tcp::receive(&mut table, [10, 0, 2, 2], [10, 0, 2, 15], &data, &mut ctx);
    let mut buf = [0u8; 16];
    assert_eq!(tcp::recv(&mut table, 0, &mut buf), Ok(2));
    assert_eq!(&buf[..2], b"hi");
    assert_eq!(tcp::recv(&mut table, 0, &mut buf), Ok(0));

    assert_eq!(tcp::close(&mut table, 0, &mut ctx), Ok(()));
    assert_eq!(tcp::status(&table, 0).unwrap().0, TcpState::FinWait1);
    assert_ne!(ctx.sent.last().unwrap().flags & FIN, 0);
}

fn segment(seq: u32, ack: u32, flags: u8) -> Vec<u8> {
    let mut buf = [0u8; 20];
    TcpHeader::build(80, 1025, seq, ack, flags, 8192, [10, 0, 2, 2], [10, 0, 2, 15], &[], &mut buf).unwrap();
    buf.to_vec()
}

#[test]
fn tcp_close_handshakes_and_retransmit() {
    let mut table = TcpTable::new();
    let mut ctx = TxContext { now: 1000, configured: true, sent: Vec::new() };
    assert_eq!(tcp::connect(&mut table, 1025, [10, 0, 2, 2], 80, &mut ctx), Ok(0));
    tcp::receive(&mut table, [10, 0, 2, 2], [10, 0, 2, 15], &syn_ack(5000, 1001), &mut ctx);
    assert_eq!(tcp::close(&mut table, 0, &mut ctx), Ok(()));
    assert_eq!(ctx.sent.last().unwrap().flags, FIN | ACK);
    tcp::receive(&mut table, [10, 0, 2, 2], [10, 0, 2, 15], &segment(5001, 1002, ACK), &mut ctx);
    assert_eq!(tcp::status(&table, 0).unwrap().0, TcpState::FinWait2);
    let before = ctx.sent.len();
    tcp::receive(&mut table, [10, 0, 2, 2], [10, 0, 2, 15], &segment(5001, 1002, FIN | ACK), &mut ctx);
    assert_eq!(tcp::status(&table, 0).unwrap().0, TcpState::TimeWait);
    assert_eq!(ctx.sent.len(), before + 1);
    assert_eq!(ctx.sent.last().unwrap().flags, ACK);
    assert_eq!(ctx.sent.last().unwrap().ack, 5002);

    let mut table = TcpTable::new();
    let mut ctx = TxContext { now: 2000, configured: true, sent: Vec::new() };
    assert_eq!(tcp::connect(&mut table, 1025, [10, 0, 2, 2], 80, &mut ctx), Ok(0));
    tcp::poll(&mut table, &mut ctx);
    assert_eq!(ctx.sent.len(), 1);
    ctx.now = 5000;
    tcp::poll(&mut table, &mut ctx);
    assert_eq!(ctx.sent.len(), 2);
    assert_eq!(ctx.sent[1].flags, SYN);
    assert_eq!(ctx.sent[1].seq, ctx.sent[0].seq);
    let mut t: u64 = 5000;
    for _ in 0..10 {
        t += 100_000;
        ctx.now = t;
        tcp::poll(&mut table, &mut ctx);
    }
    assert_eq!(ctx.sent.last().unwrap().flags, RST | ACK);
    assert_eq!(tcp::status(&table, 0).unwrap().0, TcpState::Closed);
}

fn from_peer(seq: u32, ack: u32, flags: u8) -> Vec<u8> {
    let mut buf = [0u8; 20];
    TcpHeader::build(4000, 8080, seq, ack, flags, 8192, [10, 0, 2, 2], [10, 0, 2, 15], &[], &mut buf).unwrap();
    buf.to_vec()
}

#[test]
fn tcp_passive_open_handshake() {
    let mut table = TcpTable::new();
    let mut ctx = TxContext { now: 7, configured: true, sent: Vec::new() };
    assert_eq!(tcp::listen(&mut table, 8080, 7), Ok(()));
    tcp::receive(&mut table, [10, 0, 2, 2], [10, 0, 2, 15], &from_peer(300, 0, SYN), &mut ctx);
    assert_eq!(tcp::status(&table, 0).unwrap().0, TcpState::SynReceived);
    assert_eq!(ctx.sent.len(), 1);
    assert_eq!(ctx.sent[0].flags, SYN | ACK);
    assert_eq!(ctx.sent[0].seq, 7);
    assert_eq!(ctx.sent[0].ack, 301);
    assert!(tcp::close(&mut table, 0, &mut ctx).is_err());
    tcp::receive(&mut table, [10, 0, 2, 2], [10, 0, 2, 15], &from_peer(301, 8, ACK), &mut ctx);
    assert_eq!(tcp::status(&table, 0).unwrap().0, TcpState::Established);
    assert_eq!(tcp::send(&mut table, 0, b"ok", &mut ctx), Ok(2));
    let last = ctx.sent.last().unwrap();
    assert_eq!((last.seq, last.payload.clone()), (8, b"ok".to_vec()));
    assert_eq!(tcp::close(&mut table, 0, &mut ctx), Ok(()));
    assert_eq!(tcp::status(&table, 0).unwrap().0, TcpState::FinWait1);
}

#[test]
fn tcp_listen_list_and_errors() {
    let mut table = TcpTable::new();
    let mut ctx = TxContext { now: 7, configured: true, sent: Vec::new() };
    assert_eq!(tcp::listen(&mut table, 8080, 7), Ok(()));
    let l = tcp::list(&table);
    assert_eq!(l.len(), 1);
    assert_eq!(l[0].0, 0);
    assert_eq!(l[0].1, TcpState::Listen);
    assert_eq!(l[0].2, 8080);
    let mut buf = [0u8; 4];
    assert_eq!(tcp::recv(&mut table, 9, &mut buf), Err("invalid connection index"));
    assert!(tcp::send(&mut table, 0, b"x", &mut ctx).is_err());
    for _ in 0..3 {
        assert!(tcp::listen(&mut table, 1, 7).is_ok());
    }
    assert_eq!(tcp::listen(&mut table, 2, 7), Err("no free connection slots"));
}

#[test]
fn dhcp_discover_message() {
    let mac = [0x52, 0x54, 0, 0x12, 0x34, 0x56];
    let m = build_dhcp_msg(1, 0x12345678, &mac, 1, None, None);
    assert_eq!(m.len(), 253);
    assert_eq!(&m[0..4], &[1, 1, 6, 0]);
    assert_eq!(&m[4..8], &[0x12, 0x34, 0x56, 0x78]);
    assert_eq!(&m[10..12], &[0x80, 0]);
    assert_eq!(&m[28..34], &mac);
    assert_eq!(&m[236..240], &[0x63, 0x82, 0x53, 0x63]);
    assert_eq!(&m[240..243], &[53, 1, 1]);
    assert_eq!(m[252], 255);
    let r = build_dhcp_msg(1, 1, &mac, 3, Some([10, 0, 2, 15]), Some([10, 0, 2, 2]));
    assert_eq!(&r[243..249], &[50, 4, 10, 0, 2, 15]);
    assert_eq!(&r[249..255], &[54, 4, 10, 0, 2, 2]);
}

#[test]
fn dhcp_options_parsed() {
    let opts = [53, 1, 5, 1, 4, 255, 255, 255, 0, 3, 4, 10, 0, 2, 2, 0, 6, 4, 8, 8, 4, 4, 54, 4, 10, 0, 2, 3, 255, 1, 4, 1, 1, 1, 1];
    let (t, subnet, router, dns, server) = parse_dhcp_options(&opts);
    assert_eq!(t, 5);
    assert_eq!(subnet, Some([255, 255, 255, 0]));
    assert_eq!(router, Some([10, 0, 2, 2]));
    assert_eq!(dns, Some([8, 8, 4, 4]));
    assert_eq!(server, Some([10, 0, 2, 3]));
}

fn reply(xid: u32, mac: [u8; 6], yiaddr: [u8; 4], opts: &[u8]) -> Vec<u8> {
    let mut m = vec![0u8; 240];
    m[0] = 2;
    m[4..8].copy_from_slice(&xid.to_be_bytes());
    m[16..20].copy_from_slice(&yiaddr);
    m[28..34].copy_from_slice(&mac);
    m[236..240].copy_from_slice(&[0x63, 0x82, 0x53, 0x63]);
    m.extend_from_slice(&[0x63, 0x82, 0x53, 0x63]);
    m.extend_from_slice(opts);
    m
}

#[test]
fn dhcp_reply_and_client_exchange() {
    let mac = [0x52, 0x54, 0, 0x12, 0x34, 0x56];
    let offer = reply(99, mac, [10, 0, 2, 15], &[53, 1, 2, 54, 4, 10, 0, 2, 2, 255]);
    let parsed = parse_dhcp_reply(&offer, 99, &mac).unwrap();
    assert_eq!(parsed.0, 2);
    assert_eq!(parsed.1, Some([10, 0, 2, 15]));
    assert_eq!(parsed.5, Some([10, 0, 2, 2]));
    assert!(parse_dhcp_reply(&offer, 98, &mac).is_none());
    let mut no_cookie = offer.clone();
    no_cookie[240] = 0;
    // Without a cookie from byte 240 on, the options are read from byte 240.
    let fallback = parse_dhcp_reply(&no_cookie, 99, &mac).unwrap();
    assert_eq!(fallback.1, Some([10, 0, 2, 15]));
    let mut bare = no_cookie[..240].to_vec();
    bare.extend_from_slice(&[53, 1, 5, 255]);
    assert_eq!(bare.len(), 244);
    let p = parse_dhcp_reply(&bare, 99, &mac).unwrap();
    assert_eq!(p.0, 5);

    let (mut client, first) = DhcpClient::start(mac, 99);
    match first {
        DhcpStep::Send(f) => assert_eq!(f.len(), 14 + 20 + 8 + 253),
        _ => panic!("discover"),
    }
    match client.on_reply(Some(parsed)) {
        DhcpStep::Send(f) => assert_eq!(f.len(), 14 + 20 + 8 + 265),
        _ => panic!("request"),
    }
    let ack = reply(99, mac, [10, 0, 2, 15], &[53, 1, 5, 1, 4, 255, 255, 0, 0, 255]);
    let parsed_ack = parse_dhcp_reply(&ack, 99, &mac).unwrap();
    match client.on_reply(Some(parsed_ack)) {
        DhcpStep::Done(Some(cfg)) => {
            assert_eq!(cfg.ip, [10, 0, 2, 15]);
            assert_eq!(cfg.subnet, [255, 255, 0, 0]);
            assert_eq!(cfg.gateway, [10, 0, 2, 2]);
            assert_eq!(cfg.dns, [8, 8, 8, 8]);
        }
        _ => panic!("ack"),
    }
    let (mut c2, _) = DhcpClient::start(mac, 5);
    assert!(matches!(c2.on_reply(None), DhcpStep::Done(None)));
}

#[test]
fn echo_request_and_ping_frame() {
    let e = echo_request();
    assert_eq!(e.len(), 18);
    assert_eq!(&e[0..2], &[8, 0]);
    assert_eq!(&e[4..8], &[0, 1, 0, 1]);
    assert_eq!(&e[8..], b"RustKernel");
    assert_eq!(checksum(&e), 0);
    let f = ping_frame([1; 6], [2; 6], [10, 0, 2, 15], [10, 0, 2, 2]);
    assert_eq!(f.len(), 14 + 20 + 18);
    assert_eq!(&f[12..14], &[0x08, 0x00]);
    assert_eq!(f[14 + 9], 1);
    assert_eq!(&f[34..], &e[..]);
}

#[test]
fn who_has_and_reply_recognition() {
    let req = who_has([2; 6], [10, 0, 2, 15], [10, 0, 2, 2]);
    assert_eq!(req.len(), 42);
    assert_eq!(&req[0..6], &[0xFF; 6]);
    let mut arp = [0u8; 28];
    ArpPacket::build_request([9; 6], [10, 0, 2, 2], [10, 0, 2, 15], &mut arp).unwrap();
    arp[7] = 2;
    let mut frame = vec![0u8; 42];
    EthernetFrame::build([2; 6], [9; 6], ETHERTYPE_ARP, &arp, &mut frame).unwrap();
    assert_eq!(arp_reply_from(&frame, [10, 0, 2, 2], Some([10, 0, 2, 15])), Some([9; 6]));
    assert_eq!(arp_reply_from(&frame, [10, 0, 2, 2], None), Some([9; 6]));
    assert_eq!(arp_reply_from(&frame, [10, 0, 2, 2], Some([10, 0, 2, 16])), None);
    assert_eq!(arp_reply_from(&frame, [10, 0, 2, 3], None), None);
    assert_eq!(arp_reply_from(&req, [10, 0, 2, 2], None), None);
}

#[test]
fn echo_reply_recognition() {
    let mut f = ping_frame([1; 6], [2; 6], [10, 0, 2, 2], [10, 0, 2, 15]);
    f[34] = 0;
    f.resize(60, 0);
    assert_eq!(echo_reply_from(&f), Some([10, 0, 2, 2]));
    f[34] = 8;
    assert_eq!(echo_reply_from(&f), None);
}

#[test]
fn pci_and_nic_selection() {
    assert_eq!(pci_config_address(0, 3, 0, 0x10), 0x8000_1810);
    assert_eq!(pci_config_address(1, 0, 2, 0x13), 0x8001_0210);
    assert!(read_device(0, 1, 0, 0xFFFF_FFFF, 0).is_none());
    let d = read_device(0, 3, 0, 0x8139_10EC, 0x0200_0010).unwrap();
    assert_eq!((d.vendor_id, d.device_id, d.class, d.subclass), (0x10EC, 0x8139, 2, 0));
    assert_eq!(nic_kind(&d), NicKind::Rtl8139);
    let e = read_device(0, 4, 0, 0x100E_8086, 0x0200_0000).unwrap();
    assert_eq!(nic_kind(&e), NicKind::E1000);
    let v = read_device(0, 2, 0, 0x1111_1234, 0x0300_0000).unwrap();
    assert_eq!(nic_kind(&v), NicKind::NoNic);
    assert_eq!(find_network_on_bus0(&[v, d, e]).map(|x| x.slot), Some(3));
    assert_eq!(bar_offset(0), 0x10);
    assert_eq!(bus_master_command(0x0002), 0x0007);
    assert_eq!(io_base_from_bar(0xC001), 0xC000);
}

#[test]
fn rtl8139_register_logic() {
    assert_eq!(mac_from_regs(0x5634_1252, 0x9A78), [0x52, 0x12, 0x34, 0x56, 0x78, 0x9A]);
    assert_eq!(loopback_tcr(0x0000_03E0, true), 0x0000_01E0);
    assert!(tx_length_ok(1514));
    assert!(!tx_length_ok(1515));
    let (d0, _, _) = tx_registers(0);
    let (d5, _, _) = tx_registers(5);
    assert_eq!(d0, 0);
    assert_eq!(d5, 1);
}

#[test]
fn net_configuration_defaults() {
    let mut st = NetState::new();
    assert!(get_config(&st).is_none());
    assert_eq!(local_ip(get_config(&st)), [10, 0, 2, 15]);
    assert_eq!(gateway_ip(get_config(&st)), [10, 0, 2, 2]);
    let cfg = NetConfig { ip: [192, 168, 0, 7], subnet: [255, 255, 255, 0], gateway: [192, 168, 0, 1], dns: [1, 1, 1, 1] };
    set_config(&mut st, cfg);
    assert_eq!(local_ip(get_config(&st)), [192, 168, 0, 7]);
    assert_eq!(gateway_ip(get_config(&st)), [192, 168, 0, 1]);
    assert_eq!(String::from_utf8(cfg.display()).unwrap(),
        "IP: 192.168.0.7 / mask: 255.255.255.0 / gw: 192.168.0.1 / dns: 1.1.1.1");
}

#[test]
fn scan_bus0_keeps_present_functions_in_slot_order() {
    let reads = [(0xFFFF_FFFFu32, 0u32), (0x8139_10ECu32, 0x0200_0000u32), (0x0000_FFFFu32, 0u32), (0x100E_8086u32, 0x0280_0000u32)];
    let v = scan_bus0(&reads);
    assert_eq!(v.len(), 2);
    assert_eq!((v[0].slot, v[0].vendor_id, v[0].device_id, v[0].class, v[0].subclass), (1, 0x10EC, 0x8139, 2, 0));
    assert_eq!((v[1].slot, v[1].vendor_id, v[1].device_id, v[1].class, v[1].subclass), (3, 0x8086, 0x100E, 2, 0x80));
    assert_eq!((v[0].bus, v[0].func), (0, 0));
}

#[test]
fn wait_steps_decide_in_order() {
    let mut f = ping_frame([1; 6], [2; 6], [10, 0, 2, 2], [10, 0, 2, 15]);
    f[34] = 0;
    assert!(matches!(wait_step(WaitFor::EchoReply, 100, 100, Some(&f), true), WaitVerdict::TimedOut));
    assert!(matches!(wait_step(WaitFor::EchoReply, 100, 99, Some(&f), true), WaitVerdict::EchoReply([10, 0, 2, 2])));
    assert!(matches!(wait_step(WaitFor::ArpReply([10, 0, 2, 2], None), 100, 5, Some(&f), true), WaitVerdict::Aborted));
    assert!(matches!(wait_step(WaitFor::ArpReply([10, 0, 2, 2], None), 100, 5, None, false), WaitVerdict::Continue));
    match wait_step(WaitFor::AnyFrame, 100, 5, Some(&[1, 2, 3]), true) {
        WaitVerdict::Frame(v) => assert_eq!(v, vec![1, 2, 3]),
        _ => panic!("frame"),
    }
}
