//! Ethernet II frames that carry ARP for IPv4 over Ethernet.
//!
//! Layout, by byte offset: destination hardware address (0..6), source
//! hardware address (6..12), EtherType (12..14), then the ARP packet:
//! hardware type (14..16), protocol type (16..18), hardware address length
//! (18), protocol address length (19), operation (20..22), sender hardware
//! address (22..28), sender protocol address (28..32), target hardware
//! address (32..38), target protocol address (38..42). Multi-byte fields
//! are big-endian. An IPv4 address is held as a `u32` whose most
//! significant byte is the first octet.

use vstd::prelude::*;

use crate::mac::MacAddr;

verus! {

/// Length of an Ethernet header followed by an ARP packet for IPv4.
pub const ARP_FRAME_LEN: usize = 42;

/// The four octets of an IPv4 address, first octet first.
pub open spec fn ipv4_octets(ip: u32) -> Seq<u8> {
    seq![(ip >> 24u32) as u8, (ip >> 16u32) as u8, (ip >> 8u32) as u8, ip as u8]
}

/// The IPv4 address made of four octets, first octet first.
pub open spec fn ipv4_of(a: u8, b: u8, c: u8, d: u8) -> u32 {
    ((a as u32) << 24u32) | ((b as u32) << 16u32) | ((c as u32) << 8u32) | (d as u32)
}

/// The fixed part of an ARP packet for IPv4 over Ethernet: hardware type
/// Ethernet (1), protocol type IPv4 (0x0800), address lengths 6 and 4.
pub open spec fn arp_ipv4_header() -> Seq<u8> {
    seq![0u8, 1u8, 0x08u8, 0x00u8, 6u8, 4u8]
}

/// The broadcast ARP request that asks which host holds `target_ip`,
/// sent by the host with addresses `src_mac` and `src_ip`.
pub open spec fn request_frame(src_mac: MacAddr, src_ip: u32, target_ip: u32) -> Seq<u8> {
    MacAddr(255, 255, 255, 255, 255, 255).octets() + src_mac.octets() + seq![0x08u8, 0x06u8]
        + arp_ipv4_header() + seq![0u8, 1u8] + src_mac.octets() + ipv4_octets(src_ip)
        + MacAddr(0, 0, 0, 0, 0, 0).octets() + ipv4_octets(target_ip)
}

/// The sender of an ARP reply: the protocol address and the hardware
/// address that it announces.
#[derive(Clone, Copy, Debug, PartialEq, Eq, Structural)]
pub struct ArpReply {
    pub ip: u32,
    pub mac: MacAddr,
}

/// The frame is long enough, carries ARP (EtherType 0x0806) for IPv4 over
/// Ethernet, and its operation is Reply (2).
pub open spec fn is_arp_reply(f: Seq<u8>) -> bool {
    &&& f.len() >= ARP_FRAME_LEN
    &&& f[12] == 0x08u8 && f[13] == 0x06u8
    &&& f.subrange(14, 20) == arp_ipv4_header()
    &&& f[20] == 0u8 && f[21] == 2u8
}

/// The sender fields of an ARP frame.
pub open spec fn reply_sender(f: Seq<u8>) -> ArpReply {
    ArpReply {
        ip: ipv4_of(f[28], f[29], f[30], f[31]),
        mac: MacAddr(f[22], f[23], f[24], f[25], f[26], f[27]),
    }
}

/// Encodes the broadcast request for `target_ip`.
pub fn encode_request(src_mac: MacAddr, src_ip: u32, target_ip: u32) -> (r: Vec<u8>)
    ensures
        r@ == request_frame(src_mac, src_ip, target_ip),
        r@.len() == ARP_FRAME_LEN,
{
    let s = src_mac;
    let r = vec![
        255u8, 255u8, 255u8, 255u8, 255u8, 255u8,
        s.0, s.1, s.2, s.3, s.4, s.5,
        0x08u8, 0x06u8,
        0u8, 1u8, 0x08u8, 0x00u8, 6u8, 4u8,
        0u8, 1u8,
        s.0, s.1, s.2, s.3, s.4, s.5,
        (src_ip >> 24u32) as u8, (src_ip >> 16u32) as u8, (src_ip >> 8u32) as u8, src_ip as u8,
        0u8, 0u8, 0u8, 0u8, 0u8, 0u8,
        (target_ip >> 24u32) as u8, (target_ip >> 16u32) as u8, (target_ip >> 8u32) as u8,
        target_ip as u8,
    ];
    assert(r@ =~= request_frame(src_mac, src_ip, target_ip));
    r
}

/// Decodes a received frame: the sender of an ARP reply, or `None` for any
/// other frame (too short, not ARP, not IPv4 over Ethernet, not a reply).
pub fn decode_reply(frame: &[u8]) -> (r: Option<ArpReply>)
    ensures
        r == if is_arp_reply(frame@) {
            Some(reply_sender(frame@))
        } else {
            None::<ArpReply>
        },
{
    if frame.len() < ARP_FRAME_LEN {
        return None;
    }
    let header_ok = frame[14] == 0u8 && frame[15] == 1u8 && frame[16] == 0x08u8 && frame[17]
        == 0x00u8 && frame[18] == 6u8 && frame[19] == 4u8;
    assert(header_ok == (frame@.subrange(14, 20) =~= arp_ipv4_header()));
    if frame[12] != 0x08u8 || frame[13] != 0x06u8 || !header_ok || frame[20] != 0u8 || frame[21]
        != 2u8 {
        return None;
    }
    let ip = ((frame[28] as u32) << 24u32) | ((frame[29] as u32) << 16u32) | ((frame[30] as u32)
        << 8u32) | (frame[31] as u32);
    let mac = MacAddr(frame[22], frame[23], frame[24], frame[25], frame[26], frame[27]);
    Some(ArpReply { ip, mac })
}

} // verus!
