//! The data-plane program: classifies each received frame and rewrites the
//! frames that it forwards.
use vstd::prelude::*;
use crate::checksum::{
    calculate_ip_checksum,
    csum_update,
    ip_checksum_of,
    ip_header_valid,
    lemma_congruent_add,
    lemma_congruent_trans,
    lemma_csum_update_congruent,
    lemma_ip_checksum_validates,
    lemma_seg_sum_prefix,
    seg_sum,
    update_udp_checksum,
    words_sum,
};
use crate::classify::{
    get_gateway_mac_address,
    in_net,
    is_from_backend_server,
    is_from_local_network,
    is_link_local_ip,
    link_local,
    mac_bytes,
};
use crate::wire::{
    be16,
    ether_type,
    ip_dst,
    ip_src,
    payload_addr,
    read_be16,
    read_be32,
    ETHER_TYPE_IPV4,
    ETHER_TYPE_OFFSET,
    ETH_HDR_LEN,
    IPV4_HDR_LEN,
    IP_CHECK_OFFSET,
    IP_PROTO_OFFSET,
    IP_PROTO_UDP,
    IP_SRC_OFFSET,
    PAYLOAD_OFFSET,
    UDP_CHECK_OFFSET,
};

verus! {

/// Action: drop the frame as malformed.
pub const XDP_ABORTED: u32 = 0;

/// Action: hand the frame on to the host's IP stack.
pub const XDP_PASS: u32 = 2;

/// Action: send the rewritten frame out of the interface it came in on.
pub const XDP_TX: u32 = 3;

/// The three configuration slots that the control plane writes.
#[derive(Clone, Copy, Debug, PartialEq, Eq, Structural)]
pub struct RouterConfig {
    /// Sources in this network are passed to the host: `(network << 32) | mask`.
    pub local_net_and_mask: u64,
    /// Sources in this network are backend servers: `(network << 32) | mask`.
    pub backend_net_and_mask: u64,
    /// Destination MAC address of every forwarded frame, right-aligned.
    pub gateway_mac_address: u64,
}

/// One CPU's slot of each of the three packet counters.
#[derive(Clone, Copy, Debug, PartialEq, Eq, Structural)]
pub struct PacketCounters {
    pub total_packets: u64,
    pub client_to_server_packets: u64,
    pub server_to_client_packets: u64,
}

/// The frame carries IPv4.
pub open spec fn is_ipv4_frame(p: Seq<u8>) -> bool {
    ether_type(p) == ETHER_TYPE_IPV4
}

/// The action taken on frame `p` under configuration `cfg`.
pub open spec fn frame_action(p: Seq<u8>, cfg: RouterConfig) -> u32 {
    if p.len() < ETH_HDR_LEN {
        XDP_ABORTED
    } else if !is_ipv4_frame(p) {
        XDP_PASS
    } else if p.len() < ETH_HDR_LEN + IPV4_HDR_LEN {
        XDP_ABORTED
    } else if p[IP_PROTO_OFFSET as int] != IP_PROTO_UDP {
        XDP_PASS
    } else if link_local(ip_src(p)) || in_net(ip_src(p), cfg.local_net_and_mask) {
        XDP_PASS
    } else if p.len() < PAYLOAD_OFFSET + 4 {
        XDP_ABORTED
    } else {
        XDP_TX
    }
}

/// Frame `p` with its addresses exchanged: the destination address becomes the
/// payload's address, the source address the old destination, the payload's
/// address the old source; the old destination MAC becomes the source MAC and
/// the gateway's MAC the destination. The checksums are left as they were.
pub open spec fn swapped(p: Seq<u8>, mac: u64) -> Seq<u8> {
    Seq::new(
        p.len(),
        |i: int|
            if i < 6 {
                mac_bytes(mac)[i]
            } else if i < 12 {
                p[i - 6]
            } else if 26 <= i < 30 {
                p[i + 4]
            } else if 30 <= i < 34 {
                p[i + 12]
            } else if 42 <= i < 46 {
                p[i - 16]
            } else {
                p[i]
            },
    )
}

/// The UDP checksum of `p` updated for the six 16-bit words that the
/// forwarding changes.
pub open spec fn forwarded_udp_checksum(p: Seq<u8>) -> u16 {
    let c0 = be16(p, 40) as u16;
    let c1 = csum_update(c0, be16(p, 30) as u16, be16(p, 42) as u16);
    let c2 = csum_update(c1, be16(p, 32) as u16, be16(p, 44) as u16);
    let c3 = csum_update(c2, be16(p, 26) as u16, be16(p, 30) as u16);
    let c4 = csum_update(c3, be16(p, 28) as u16, be16(p, 32) as u16);
    let c5 = csum_update(c4, be16(p, 42) as u16, be16(p, 26) as u16);
    csum_update(c5, be16(p, 44) as u16, be16(p, 28) as u16)
}

/// The frame that forwarding `p` sends out: `swapped` with the IPv4 header
/// checksum recomputed and the UDP checksum updated.
#[verifier::opaque]
pub open spec fn forwarded(p: Seq<u8>, mac: u64) -> Seq<u8> {
    let s = swapped(p, mac);
    let ipc = ip_checksum_of(s.subrange(14, 34));
    let uc = forwarded_udp_checksum(p);
    s.update(24, (ipc / 256) as u8).update(25, (ipc % 256) as u8).update(
        40,
        (uc / 256) as u8,
    ).update(41, (uc % 256) as u8)
}

/// Exchanges the addresses of `packet` as forwarding does, leaving the
/// checksums as they were.
fn exchange_addresses(packet: &mut Vec<u8>, gateway_mac_address: u64)
    requires
        old(packet)@.len() >= 46,
    ensures
        final(packet)@ == swapped(old(packet)@, gateway_mac_address),
{
    let ghost p = packet@;
    // the IPv4 addresses and the payload's address
    let mut k: usize = 0;
    while k < 4
        invariant
            k <= 4,
            p.len() >= 46,
            packet@.len() == p.len(),
            forall|i: int| 0 <= i < k ==> #[trigger] packet@[26 + i] == p[30 + i],
            forall|i: int| 0 <= i < k ==> #[trigger] packet@[30 + i] == p[42 + i],
            forall|i: int| 0 <= i < k ==> #[trigger] packet@[42 + i] == p[26 + i],
            forall|i: int|
                0 <= i < packet@.len() && !(26 <= i < 34) && !(42 <= i < 46) ==> #[trigger] packet@[i]
                    == p[i],
            forall|i: int| k <= i < 4 ==> #[trigger] packet@[26 + i] == p[26 + i],
            forall|i: int| k <= i < 4 ==> #[trigger] packet@[30 + i] == p[30 + i],
            forall|i: int| k <= i < 4 ==> #[trigger] packet@[42 + i] == p[42 + i],
        decreases 4 - k,
    {
        let source = packet[26 + k];
        let router = packet[30 + k];
        let target = packet[42 + k];
        packet[30 + k] = target;
        packet[26 + k] = router;
        packet[42 + k] = source;
        k = k + 1;
    }

    // the NIC's MAC becomes the source, the gateway's the destination
    let mac = get_gateway_mac_address(gateway_mac_address);
    let mut m: usize = 0;
    while m < 6
        invariant
            m <= 6,
            p.len() >= 46,
            packet@.len() == p.len(),
            mac@ == mac_bytes(gateway_mac_address),
            forall|i: int| 0 <= i < m ==> #[trigger] packet@[i] == mac@[i],
            forall|i: int| 0 <= i < m ==> #[trigger] packet@[6 + i] == p[i],
            forall|i: int| m <= i < 6 ==> #[trigger] packet@[i] == p[i],
            forall|i: int| m <= i < 6 ==> #[trigger] packet@[6 + i] == p[6 + i],
            forall|i: int| 0 <= i < 4 ==> #[trigger] packet@[26 + i] == p[30 + i],
            forall|i: int| 0 <= i < 4 ==> #[trigger] packet@[30 + i] == p[42 + i],
            forall|i: int| 0 <= i < 4 ==> #[trigger] packet@[42 + i] == p[26 + i],
            forall|i: int|
                12 <= i < packet@.len() && !(26 <= i < 34) && !(42 <= i < 46) ==> #[trigger] packet@[i]
                    == p[i],
        decreases 6 - m,
    {
        let nic = packet[m];
        packet[6 + m] = nic;
        packet[m] = mac[m];
        m = m + 1;
    }
    assert forall|j: int| 0 <= j < p.len() implies packet@[j] == swapped(
        p,
        gateway_mac_address,
    )[j] by {
        if j < 6 {
            assert(packet@[j] == mac@[j]);
        } else if j < 12 {
            assert(packet@[6 + (j - 6)] == p[j - 6]);
        } else if 26 <= j < 30 {
            assert(packet@[26 + (j - 26)] == p[30 + (j - 26)]);
        } else if 30 <= j < 34 {
            assert(packet@[30 + (j - 30)] == p[42 + (j - 30)]);
        } else if 42 <= j < 46 {
            assert(packet@[42 + (j - 42)] == p[26 + (j - 42)]);
        }
    }
    assert(packet@ =~= swapped(p, gateway_mac_address));
}

/// The UDP checksum of `packet` updated for the six words that forwarding
/// changes.
fn forwarding_udp_checksum(packet: &Vec<u8>) -> (r: u16)
    requires
        packet@.len() >= 46,
    ensures
        r == forwarded_udp_checksum(packet@),
{
    let dst_hi = read_be16(packet, 30);
    let dst_lo = read_be16(packet, 32);
    let src_hi = read_be16(packet, 26);
    let src_lo = read_be16(packet, 28);
    let tgt_hi = read_be16(packet, 42);
    let tgt_lo = read_be16(packet, 44);
    let mut udp_csum = read_be16(packet, 40);
    udp_csum = update_udp_checksum(udp_csum, dst_hi, tgt_hi);
    udp_csum = update_udp_checksum(udp_csum, dst_lo, tgt_lo);
    udp_csum = update_udp_checksum(udp_csum, src_hi, dst_hi);
    udp_csum = update_udp_checksum(udp_csum, src_lo, dst_lo);
    udp_csum = update_udp_checksum(udp_csum, tgt_hi, src_hi);
    udp_csum = update_udp_checksum(udp_csum, tgt_lo, src_lo);
    udp_csum
}

/// A copy of the IPv4 header of `packet`.
fn ip_header_of(packet: &Vec<u8>) -> (r: [u8; 20])
    requires
        packet@.len() >= 34,
    ensures
        r@ == packet@.subrange(14, 34),
{
    let hdr: [u8; 20] = [
        packet[14], packet[15], packet[16], packet[17], packet[18],
        packet[19], packet[20], packet[21], packet[22], packet[23],
        packet[24], packet[25], packet[26], packet[27], packet[28],
        packet[29], packet[30], packet[31], packet[32], packet[33],
    ];
    assert(hdr@ =~= packet@.subrange(14, 34));
    hdr
}

/// Rewrites `packet` for forwarding: the payload's first four bytes name the
/// peer to reach, and take the sender's address in exchange. Fails, leaving the
/// frame as it was, when the frame is too short to hold four payload bytes.
pub fn try_forward_packet(packet: &mut Vec<u8>, gateway_mac_address: u64) -> (r: Result<u32, ()>)
    ensures
        old(packet)@.len() < 46 ==> r is Err && final(packet)@ == old(packet)@,
        old(packet)@.len() >= 46 ==> r == Ok::<u32, ()>(XDP_TX) && final(packet)@ == forwarded(
            old(packet)@,
            gateway_mac_address,
        ),
{
    if packet.len() < PAYLOAD_OFFSET + 4 {
        return Err(());
    }
    let ghost p = packet@;

    // Step 1: the UDP checksum, updated for the words that change
    let udp_csum = forwarding_udp_checksum(packet);

    // Step 2: exchange the addresses and the MAC addresses
    exchange_addresses(packet, gateway_mac_address);

    // Step 3: store the IPv4 checksum computed anew and the updated UDP checksum
    assert(packet@ == swapped(p, gateway_mac_address));
    let hdr = ip_header_of(packet);
    let ip_csum = calculate_ip_checksum(&hdr);
    assert(ip_csum == ip_checksum_of(swapped(p, gateway_mac_address).subrange(14, 34)));
    packet[IP_CHECK_OFFSET] = (ip_csum / 256) as u8;
    packet[IP_CHECK_OFFSET + 1] = (ip_csum % 256) as u8;
    packet[UDP_CHECK_OFFSET] = (udp_csum / 256) as u8;
    packet[UDP_CHECK_OFFSET + 1] = (udp_csum % 256) as u8;
    assert(packet@ == forwarded(p, gateway_mac_address)) by {
        reveal(forwarded);
    }
    Ok(XDP_TX)
}

/// A counter after one more packet; it stays at its maximum once there.
pub open spec fn bumped(n: u64) -> u64 {
    if n < u64::MAX {
        (n + 1) as u64
    } else {
        n
    }
}

/// The counters of one CPU after it handled frame `p` under `cfg`: every frame
/// counts; a forwarded one counts as a reply when its source is a backend
/// server, and as a request otherwise.
pub open spec fn counted(c: PacketCounters, p: Seq<u8>, cfg: RouterConfig) -> PacketCounters {
    let forwarded = frame_action(p, cfg) == XDP_TX;
    let from_backend = in_net(ip_src(p), cfg.backend_net_and_mask);
    PacketCounters {
        total_packets: bumped(c.total_packets),
        client_to_server_packets: if forwarded && !from_backend {
            bumped(c.client_to_server_packets)
        } else {
            c.client_to_server_packets
        },
        server_to_client_packets: if forwarded && from_backend {
            bumped(c.server_to_client_packets)
        } else {
            c.server_to_client_packets
        },
    }
}

fn bump(n: u64) -> (r: u64)
    ensures
        r == bumped(n),
{
    if n < u64::MAX {
        n + 1
    } else {
        n
    }
}

/// Classifies `packet` and, where it is to be forwarded, rewrites it. Fails
/// exactly where the frame is to be dropped as malformed; the frame changes exactly where it is
/// to be sent out.
pub fn try_udp_router(packet: &mut Vec<u8>, config: &RouterConfig) -> (r: Result<u32, ()>)
    ensures
        r is Err <==> frame_action(old(packet)@, *config) == XDP_ABORTED,
        r is Ok ==> r == Ok::<u32, ()>(frame_action(old(packet)@, *config)),
        frame_action(old(packet)@, *config) == XDP_TX ==> final(packet)@ == forwarded(
            old(packet)@,
            config.gateway_mac_address,
        ),
        frame_action(old(packet)@, *config) != XDP_TX ==> final(packet)@ == old(packet)@,
{
    if packet.len() < ETH_HDR_LEN {
        return Err(());
    }
    if read_be16(packet, ETHER_TYPE_OFFSET) != ETHER_TYPE_IPV4 {
        return Ok(XDP_PASS);
    }
    if packet.len() < ETH_HDR_LEN + IPV4_HDR_LEN {
        return Err(());
    }
    // only UDP is routed
    if packet[IP_PROTO_OFFSET] != IP_PROTO_UDP {
        return Ok(XDP_PASS);
    }
    let source_ip = read_be32(packet, IP_SRC_OFFSET);
    if is_link_local_ip(source_ip) || is_from_local_network(source_ip, config.local_net_and_mask) {
        return Ok(XDP_PASS);
    }
    try_forward_packet(packet, config.gateway_mac_address)
}

/// Handles one received frame: returns the action taken on it, rewrites it where it is
/// forwarded, and counts it in this CPU's counters.
pub fn udp_router(packet: &mut Vec<u8>, config: &RouterConfig, counters: &mut PacketCounters) -> (r:
    u32)
    ensures
        r == frame_action(old(packet)@, *config),
        r == XDP_TX ==> final(packet)@ == forwarded(old(packet)@, config.gateway_mac_address),
        r != XDP_TX ==> final(packet)@ == old(packet)@,
        *final(counters) == counted(*old(counters), old(packet)@, *config),
{
    let from_backend = if packet.len() >= ETH_HDR_LEN + IPV4_HDR_LEN {
        is_from_backend_server(read_be32(packet, IP_SRC_OFFSET), config.backend_net_and_mask)
    } else {
        false
    };
    let r = match try_udp_router(packet, config) {
        Ok(ret) => ret,
        Err(_) => XDP_ABORTED,
    };
    counters.total_packets = bump(counters.total_packets);
    if r == XDP_TX {
        if from_backend {
            counters.server_to_client_packets = bump(counters.server_to_client_packets);
        } else {
            counters.client_to_server_packets = bump(counters.client_to_server_packets);
        }
    }
    r
}

/// Outside the two checksum fields, the forwarded frame is the swapped one.
proof fn lemma_forwarded_index(p: Seq<u8>, mac: u64, i: int)
    requires
        p.len() >= 46,
        0 <= i < p.len(),
        i != 24 && i != 25 && i != 40 && i != 41,
    ensures
        forwarded(p, mac).len() == p.len(),
        forwarded(p, mac)[i] == swapped(p, mac)[i],
{
    reveal(forwarded);
}

/// Forwarding sends the frame from the address it was sent to, toward the
/// address that its payload named, and leaves the sender's address in the
/// payload.
pub proof fn lemma_forwarded_addresses(p: Seq<u8>, mac: u64)
    requires
        p.len() >= 46,
    ensures
        forwarded(p, mac).len() == p.len(),
        ip_src(forwarded(p, mac)) == ip_dst(p),
        ip_dst(forwarded(p, mac)) == payload_addr(p),
        payload_addr(forwarded(p, mac)) == ip_src(p),
{
    let f = forwarded(p, mac);
    lemma_forwarded_index(p, mac, 26);
    lemma_forwarded_index(p, mac, 27);
    lemma_forwarded_index(p, mac, 28);
    lemma_forwarded_index(p, mac, 29);
    lemma_forwarded_index(p, mac, 30);
    lemma_forwarded_index(p, mac, 31);
    lemma_forwarded_index(p, mac, 32);
    lemma_forwarded_index(p, mac, 33);
    lemma_forwarded_index(p, mac, 42);
    lemma_forwarded_index(p, mac, 43);
    lemma_forwarded_index(p, mac, 44);
    lemma_forwarded_index(p, mac, 45);
    assert(f[26] == p[30] && f[27] == p[31] && f[28] == p[32] && f[29] == p[33]);
    assert(f[30] == p[42] && f[31] == p[43] && f[32] == p[44] && f[33] == p[45]);
    assert(f[42] == p[26] && f[43] == p[27] && f[44] == p[28] && f[45] == p[29]);
}

/// Forwarding puts the gateway's MAC address first and the old destination
/// MAC address second, and leaves the payload after its first four bytes
/// unchanged.
pub proof fn lemma_forwarded_macs_and_tail(p: Seq<u8>, mac: u64)
    requires
        p.len() >= 46,
    ensures
        forwarded(p, mac).subrange(0, 6) == mac_bytes(mac),
        forwarded(p, mac).subrange(6, 12) == p.subrange(0, 6),
        forwarded(p, mac).subrange(46, p.len() as int) == p.subrange(46, p.len() as int),
{
    let f = forwarded(p, mac);
    lemma_forwarded_index(p, mac, 0);
    assert forall|i: int| 0 <= i < p.len() && i != 24 && i != 25 && i != 40 && i != 41 implies f[i]
        == swapped(p, mac)[i] by {
        lemma_forwarded_index(p, mac, i);
    }
    assert(f.subrange(0, 6) =~= mac_bytes(mac));
    assert(f.subrange(6, 12) =~= p.subrange(0, 6));
    assert(f.subrange(46, p.len() as int) =~= p.subrange(46, p.len() as int));
}

/// A reply that a backend sends back to the router, addressed as the forwarded
/// frame was but in the other direction, is forwarded to the client that sent the first frame,
/// from the router, with the backend's address in its payload: the round trip
/// needs no per-flow state.
pub proof fn lemma_reply_round_trip(p: Seq<u8>, mac: u64, reply: Seq<u8>, reply_mac: u64)
    requires
        p.len() >= 46,
        reply.len() >= 46,
        ip_src(reply) == ip_dst(forwarded(p, mac)),
        ip_dst(reply) == ip_src(forwarded(p, mac)),
        payload_addr(reply) == payload_addr(forwarded(p, mac)),
    ensures
        ip_src(forwarded(reply, reply_mac)) == ip_dst(p),
        ip_dst(forwarded(reply, reply_mac)) == ip_src(p),
        payload_addr(forwarded(reply, reply_mac)) == payload_addr(p),
        forwarded(reply, reply_mac).subrange(46, reply.len() as int) == reply.subrange(
            46,
            reply.len() as int,
        ),
{
    lemma_forwarded_addresses(p, mac);
    lemma_forwarded_addresses(reply, reply_mac);
    lemma_forwarded_macs_and_tail(reply, reply_mac);
}

/// The IPv4 header of a forwarded frame carries a valid checksum.
pub proof fn lemma_forwarded_ip_header_valid(p: Seq<u8>, mac: u64)
    requires
        p.len() >= 46,
    ensures
        ip_header_valid(forwarded(p, mac).subrange(14, 34)),
{
    reveal(forwarded);
    let h = swapped(p, mac).subrange(14, 34);
    lemma_ip_checksum_validates(h);
    let c = ip_checksum_of(h);
    assert(forwarded(p, mac).subrange(14, 34) =~= h.update(10, (c / 256) as u8).update(
        11,
        (c % 256) as u8,
    ));
}

/// The length field of the UDP header.
pub open spec fn udp_len(p: Seq<u8>) -> int {
    be16(p, 38)
}

/// The sum that a receiver forms to check the UDP checksum: the pseudo-header
/// (addresses, protocol, length), then the UDP header, checksum included, and
/// the payload.
pub open spec fn udp_sum(p: Seq<u8>) -> int {
    be16(p, 26) + be16(p, 28) + be16(p, 30) + be16(p, 32) + 17 + udp_len(p) + seg_sum(
        p.subrange(34, 34 + udp_len(p)),
    )
}

/// The UDP datagram lies within the frame, holds at least four payload bytes,
/// and its checksum validates: the one's-complement sum is 0xffff, that is the
/// plain sum is a multiple of 0xffff.
pub open spec fn udp_checksum_valid(p: Seq<u8>) -> bool {
    12 <= udp_len(p) && 34 + udp_len(p) <= p.len() && udp_sum(p) % 0xffff == 0
}

/// The six updates of the UDP checksum, which trade the same three addresses
/// among three places, leave it unchanged modulo 0xffff.
proof fn lemma_forwarded_udp_checksum_congruent(p: Seq<u8>)
    requires
        p.len() >= 46,
    ensures
        (forwarded_udp_checksum(p) as int - be16(p, 40)) % 0xffff == 0,
{
    let dh = be16(p, 30) as u16;
    let dl = be16(p, 32) as u16;
    let sh = be16(p, 26) as u16;
    let sl = be16(p, 28) as u16;
    let th = be16(p, 42) as u16;
    let tl = be16(p, 44) as u16;
    let c0 = be16(p, 40) as u16;
    let c1 = csum_update(c0, dh, th);
    let c2 = csum_update(c1, dl, tl);
    let c3 = csum_update(c2, sh, dh);
    let c4 = csum_update(c3, sl, dl);
    let c5 = csum_update(c4, th, sh);
    let c6 = csum_update(c5, tl, sl);
    lemma_csum_update_congruent(c0, dh, th);
    lemma_csum_update_congruent(c1, dl, tl);
    lemma_csum_update_congruent(c2, sh, dh);
    lemma_csum_update_congruent(c3, sl, dl);
    lemma_csum_update_congruent(c4, th, sh);
    lemma_csum_update_congruent(c5, tl, sl);
    let e1 = c1 as int - (c0 as int + dh as int - th as int);
    let e2 = c2 as int - (c1 as int + dl as int - tl as int);
    let e3 = c3 as int - (c2 as int + sh as int - dh as int);
    let e4 = c4 as int - (c3 as int + sl as int - dl as int);
    let e5 = c5 as int - (c4 as int + th as int - sh as int);
    let e6 = c6 as int - (c5 as int + tl as int - sl as int);
    lemma_congruent_add(e1, e2);
    lemma_congruent_add(e1 + e2, e3);
    lemma_congruent_add(e1 + e2 + e3, e4);
    lemma_congruent_add(e1 + e2 + e3 + e4, e5);
    lemma_congruent_add(e1 + e2 + e3 + e4 + e5, e6);
    assert(c6 as int - c0 as int == e1 + e2 + e3 + e4 + e5 + e6);
    assert(forwarded_udp_checksum(p) == c6);
}

/// Forwarding a datagram whose UDP checksum validates gives one whose UDP
/// checksum validates.
pub proof fn lemma_forwarded_udp_checksum_valid(p: Seq<u8>, mac: u64)
    requires
        p.len() >= 46,
        udp_checksum_valid(p),
    ensures
        udp_checksum_valid(forwarded(p, mac)),
{
    reveal(forwarded);
    let f = forwarded(p, mac);
    let len = udp_len(p);
    assert(udp_len(f) == len);
    let d = p.subrange(34, 34 + len);
    let g = f.subrange(34, 34 + len);
    lemma_seg_sum_prefix(d, 6);
    lemma_seg_sum_prefix(g, 6);
    assert(g.subrange(12, len) =~= d.subrange(12, len));
    reveal_with_fuel(words_sum, 7);
    let uc = forwarded_udp_checksum(p);
    assert(be16(f, 40) == uc as int);
    assert(words_sum(g, 6) - words_sum(d, 6) == uc as int - be16(p, 40) + be16(p, 26) + be16(
        p,
        28,
    ) - be16(p, 42) - be16(p, 44));
    assert(udp_sum(f) - udp_sum(p) == uc as int - be16(p, 40));
    lemma_forwarded_udp_checksum_congruent(p);
    lemma_congruent_trans(udp_sum(f), udp_sum(p), 0);
}

/// Handling a frame never lowers a counter of its CPU.
pub proof fn lemma_counted_monotone(c: PacketCounters, p: Seq<u8>, cfg: RouterConfig)
    ensures
        counted(c, p, cfg).total_packets >= c.total_packets,
        counted(c, p, cfg).client_to_server_packets >= c.client_to_server_packets,
        counted(c, p, cfg).server_to_client_packets >= c.server_to_client_packets,
{
}

} // verus!
