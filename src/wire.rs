//! Byte layout of the Ethernet / IPv4 / UDP frames that the rewriter handles.
use vstd::prelude::*;

verus! {

/// Length of an Ethernet II header.
pub const ETH_HDR_LEN: usize = 14;

/// Length of an IPv4 header without options.
pub const IPV4_HDR_LEN: usize = 20;

/// Length of a UDP header.
pub const UDP_HDR_LEN: usize = 8;

/// Offset of the EtherType field in the frame.
pub const ETHER_TYPE_OFFSET: usize = 12;

/// Offset of the IPv4 protocol field in the frame.
pub const IP_PROTO_OFFSET: usize = 23;

/// Offset of the IPv4 header checksum in the frame.
pub const IP_CHECK_OFFSET: usize = 24;

/// Offset of the IPv4 source address in the frame.
pub const IP_SRC_OFFSET: usize = 26;

/// Offset of the IPv4 destination address in the frame.
pub const IP_DST_OFFSET: usize = 30;

/// Offset of the UDP checksum in the frame.
pub const UDP_CHECK_OFFSET: usize = 40;

/// Offset of the first UDP payload byte in the frame.
pub const PAYLOAD_OFFSET: usize = ETH_HDR_LEN + IPV4_HDR_LEN + UDP_HDR_LEN;

/// EtherType of IPv4.
pub const ETHER_TYPE_IPV4: u16 = 0x0800;

/// IPv4 protocol number of UDP.
pub const IP_PROTO_UDP: u8 = 17;

/// The big-endian 16-bit word at byte `i`.
pub open spec fn be16(p: Seq<u8>, i: int) -> int {
    p[i] as int * 256 + p[i + 1] as int
}

/// The big-endian 32-bit word at byte `i`.
pub open spec fn be32(p: Seq<u8>, i: int) -> u32 {
    (be16(p, i) * 0x10000 + be16(p, i + 2)) as u32
}

/// The EtherType of a frame at least `ETH_HDR_LEN` long.
pub open spec fn ether_type(p: Seq<u8>) -> int {
    be16(p, ETHER_TYPE_OFFSET as int)
}

/// The IPv4 source address, in host order.
pub open spec fn ip_src(p: Seq<u8>) -> u32 {
    be32(p, IP_SRC_OFFSET as int)
}

/// The IPv4 destination address, in host order.
pub open spec fn ip_dst(p: Seq<u8>) -> u32 {
    be32(p, IP_DST_OFFSET as int)
}

/// The first four payload bytes read as an IPv4 address, in host order.
pub open spec fn payload_addr(p: Seq<u8>) -> u32 {
    be32(p, PAYLOAD_OFFSET as int)
}

/// Reads the big-endian 16-bit word at byte `i`.
pub fn read_be16(p: &Vec<u8>, i: usize) -> (r: u16)
    requires
        i + 2 <= p.len(),
    ensures
        r as int == be16(p@, i as int),
{
    (p[i] as u16) * 256 + (p[i + 1] as u16)
}

/// Reads the big-endian 32-bit word at byte `i`.
pub fn read_be32(p: &Vec<u8>, i: usize) -> (r: u32)
    requires
        i + 4 <= p.len(),
    ensures
        r == be32(p@, i as int),
{
    (read_be16(p, i) as u32) * 0x10000 + (read_be16(p, i + 2) as u32)
}

} // verus!
