use arp_notify::frame::{decode_reply, encode_request, ArpReply, ARP_FRAME_LEN};
use arp_notify::mac::MacAddr;
use arp_notify::sweep::{collect_replies, hosts_by_address, request_for, Interface, Subnet, TimedReply, DEFAULT_WINDOW_MS};

fn ip(a: u8, b: u8, c: u8, d: u8) -> u32 {
    ((a as u32) << 24) | ((b as u32) << 16) | ((c as u32) << 8) | (d as u32)
}

fn eth0() -> Interface {
    Interface {
        name: "eth0".to_string(),
        hardware_address: MacAddr(0x02, 0x00, 0x00, 0x00, 0x00, 0x01),
        source_ipv4: ip(192, 168, 1, 2),
        subnet: Subnet::new(ip(192, 168, 1, 2), 24).unwrap(),
    }
}

fn reply(mac_last: u8, host: u8, at_ms: u64) -> TimedReply {
    TimedReply {
        reply: ArpReply { ip: ip(192, 168, 1, host), mac: MacAddr(0xaa, 0xbb, 0xcc, 0xdd, 0xee, mac_last) },
        at_ms,
    }
}

fn reply_frame(sender: MacAddr, sender_ip: u32, op: u8) -> Vec<u8> {
    let mut f = vec![0x02, 0x00, 0x00, 0x00, 0x00, 0x01];
    f.extend_from_slice(&[sender.0, sender.1, sender.2, sender.3, sender.4, sender.5]);
    f.extend_from_slice(&[0x08, 0x06, 0x00, 0x01, 0x08, 0x00, 6, 4, 0x00, op]);
    f.extend_from_slice(&[sender.0, sender.1, sender.2, sender.3, sender.4, sender.5]);
    f.extend_from_slice(&sender_ip.to_be_bytes());
    f.extend_from_slice(&[0x02, 0x00, 0x00, 0x00, 0x00, 0x01]);
    f.extend_from_slice(&ip(192, 168, 1, 2).to_be_bytes());
    f
}

#[test]
fn request_frame_layout() {
    let f = encode_request(MacAddr(1, 2, 3, 4, 5, 6), ip(10, 0, 0, 1), ip(10, 0, 0, 9));
    let expected: Vec<u8> = vec![
        255, 255, 255, 255, 255, 255, 1, 2, 3, 4, 5, 6, 0x08, 0x06, 0, 1, 0x08, 0, 6, 4, 0, 1, 1, 2, 3, 4, 5, 6, 10,
        0, 0, 1, 0, 0, 0, 0, 0, 0, 10, 0, 0, 9,
    ];
    assert_eq!(f, expected);
    assert_eq!(f.len(), ARP_FRAME_LEN);
}

#[test]
fn reply_frame_decodes_to_sender() {
    let sender = MacAddr(0xaa, 0xbb, 0xcc, 0xdd, 0xee, 0x01);
    let mut f = reply_frame(sender, ip(192, 168, 1, 10), 2);
    assert_eq!(decode_reply(&f), Some(ArpReply { ip: ip(192, 168, 1, 10), mac: sender }));
    f.extend_from_slice(&[0u8; 18]);
    assert_eq!(decode_reply(&f), Some(ArpReply { ip: ip(192, 168, 1, 10), mac: sender }));
}

#[test]
fn other_frames_are_discarded() {
    let sender = MacAddr(0xaa, 0xbb, 0xcc, 0xdd, 0xee, 0x01);
    let request = reply_frame(sender, ip(192, 168, 1, 10), 1);
    assert_eq!(decode_reply(&request), None);
    let full = reply_frame(sender, ip(192, 168, 1, 10), 2);
    assert_eq!(decode_reply(&full[..41]), None);
    assert_eq!(decode_reply(&[]), None);
    let mut ipv4 = full.clone();
    ipv4[12] = 0x08;
    ipv4[13] = 0x00;
    assert_eq!(decode_reply(&ipv4), None);
    let mut long_hw = full.clone();
    long_hw[18] = 8;
    assert_eq!(decode_reply(&long_hw), None);
}

#[test]
fn subnet_bounds() {
    assert!(Subnet::new(ip(10, 0, 0, 1), 33).is_none());
    let s = Subnet::new(ip(192, 168, 1, 77), 24).unwrap();
    assert_eq!(s.network(), ip(192, 168, 1, 0));
    assert_eq!(s.size(), 256);
    assert_eq!(s.nth(0), Some(ip(192, 168, 1, 0)));
    assert_eq!(s.nth(255), Some(ip(192, 168, 1, 255)));
    assert_eq!(s.nth(256), None);
    let host = Subnet::new(ip(10, 1, 2, 3), 32).unwrap();
    assert_eq!(host.size(), 1);
    assert_eq!(host.nth(0), Some(ip(10, 1, 2, 3)));
    let pair = Subnet::new(ip(10, 1, 2, 3), 31).unwrap();
    assert_eq!(pair.size(), 2);
    assert_eq!(pair.nth(0), Some(ip(10, 1, 2, 2)));
    let all = Subnet::new(ip(10, 1, 2, 3), 0).unwrap();
    assert_eq!(all.size(), 1u64 << 32);
    assert_eq!(all.nth((1u64 << 32) - 1), Some(u32::MAX));
}

#[test]
fn sweep_sends_one_request_per_address() {
    let iface = eth0();
    let mut sent: Vec<Vec<u8>> = Vec::new();
    let mut i: u64 = 0;
    while let Some(frame) = request_for(&iface, i) {
        sent.push(frame);
        i += 1;
    }
    assert_eq!(sent.len(), 256);
    for (k, frame) in sent.iter().enumerate() {
        assert_eq!(&frame[38..42], &ip(192, 168, 1, k as u8).to_be_bytes());
        assert_eq!(&frame[0..6], &[255u8; 6]);
        assert_eq!(&frame[32..38], &[0u8; 6]);
    }
    let small = Interface { subnet: Subnet::new(ip(192, 168, 1, 2), 30).unwrap(), ..eth0() };
    assert!(request_for(&small, 3).is_some());
    assert!(request_for(&small, 4).is_none());
}

#[test]
fn late_replies_are_absent() {
    let replies = vec![reply(1, 10, 100), reply(2, 20, 2500)];
    let result = collect_replies(&replies, DEFAULT_WINDOW_MS);
    assert_eq!(result.len(), 1);
    assert_eq!(result.get(&MacAddr(0xaa, 0xbb, 0xcc, 0xdd, 0xee, 1)), Some(&ip(192, 168, 1, 10)));
    assert_eq!(result.get(&MacAddr(0xaa, 0xbb, 0xcc, 0xdd, 0xee, 2)), None);
    let at_close = vec![reply(3, 30, DEFAULT_WINDOW_MS)];
    assert_eq!(collect_replies(&at_close, DEFAULT_WINDOW_MS).len(), 0);
}

#[test]
fn later_reply_wins_for_same_mac() {
    let replies = vec![reply(1, 10, 100), reply(1, 11, 200)];
    let result = collect_replies(&replies, DEFAULT_WINDOW_MS);
    assert_eq!(result.len(), 1);
    assert_eq!(result.get(&MacAddr(0xaa, 0xbb, 0xcc, 0xdd, 0xee, 1)), Some(&ip(192, 168, 1, 11)));
}

#[test]
fn empty_reply_set_is_empty_result() {
    let result = collect_replies(&Vec::new(), DEFAULT_WINDOW_MS);
    assert_eq!(result.len(), 0);
}

#[test]
fn end_to_end_two_hosts() {
    let iface = eth0();
    assert_eq!(iface.subnet.network(), ip(192, 168, 1, 0));
    assert_eq!(iface.subnet.prefix(), 24);
    let mut replies = vec![reply(1, 10, 300), reply(2, 20, 900)];
    let result = collect_replies(&replies, DEFAULT_WINDOW_MS);
    assert_eq!(result.len(), 2);
    assert_eq!(result.get(&MacAddr(0xaa, 0xbb, 0xcc, 0xdd, 0xee, 1)), Some(&ip(192, 168, 1, 10)));
    assert_eq!(result.get(&MacAddr(0xaa, 0xbb, 0xcc, 0xdd, 0xee, 2)), Some(&ip(192, 168, 1, 20)));
    replies.push(reply(3, 30, DEFAULT_WINDOW_MS + 50));
    let result = collect_replies(&replies, DEFAULT_WINDOW_MS);
    assert_eq!(result.len(), 2);
    assert_eq!(result.get(&MacAddr(0xaa, 0xbb, 0xcc, 0xdd, 0xee, 3)), None);
}

#[test]
fn hosts_listed_by_address() {
    let replies = vec![reply(1, 30, 10), reply(2, 5, 20), reply(3, 17, 30), reply(4, 5, 40)];
    let result = collect_replies(&replies, DEFAULT_WINDOW_MS);
    let hosts = hosts_by_address(&result);
    let addresses: Vec<u32> = hosts.iter().map(|h| h.1).collect();
    assert_eq!(addresses, vec![ip(192, 168, 1, 5), ip(192, 168, 1, 5), ip(192, 168, 1, 17), ip(192, 168, 1, 30)]);
    assert_eq!(hosts[2].0, MacAddr(0xaa, 0xbb, 0xcc, 0xdd, 0xee, 3));
    assert_eq!(hosts.len(), 4);
}
