use udp_router::control::get_stats;
use udp_router::rewriter::{
    try_forward_packet, try_udp_router, udp_router, PacketCounters, RouterConfig, XDP_ABORTED,
    XDP_PASS, XDP_TX,
};

const CLIENT_MAC: [u8; 6] = [0xaa, 0xaa, 0xaa, 0xaa, 0xaa, 0x01];
const ROUTER_MAC: [u8; 6] = [0xbb, 0xbb, 0xbb, 0xbb, 0xbb, 0x02];
const GATEWAY_MAC: u64 = 0xcccc_cccc_cccc;

fn fold(mut sum: u64) -> u16 {
    while sum > 0xffff {
        sum = (sum & 0xffff) + (sum >> 16);
    }
    sum as u16
}

fn words_sum(bytes: &[u8]) -> u64 {
    let mut sum = 0u64;
    for chunk in bytes.chunks(2) {
        let hi = chunk[0] as u64;
        let lo = if chunk.len() > 1 { chunk[1] as u64 } else { 0 };
        sum += (hi << 8) | lo;
    }
    sum
}

fn udp_sum(frame: &[u8]) -> u64 {
    let udp_len = u16::from_be_bytes([frame[38], frame[39]]) as usize;
    words_sum(&frame[26..34]) + 17 + udp_len as u64 + words_sum(&frame[34..34 + udp_len])
}

fn ip_header_ok(frame: &[u8]) -> bool {
    fold(words_sum(&frame[14..34])) == 0xffff
}

fn udp_checksum_ok(frame: &[u8]) -> bool {
    fold(udp_sum(frame)) == 0xffff
}

/// An Ethernet / IPv4 / UDP frame with valid checksums.
fn frame(
    eth_src: [u8; 6],
    eth_dst: [u8; 6],
    proto: u8,
    src: [u8; 4],
    dst: [u8; 4],
    sport: u16,
    dport: u16,
    payload: &[u8],
) -> Vec<u8> {
    let mut f = Vec::new();
    f.extend_from_slice(&eth_dst);
    f.extend_from_slice(&eth_src);
    f.extend_from_slice(&[0x08, 0x00]);
    let total_len = (20 + 8 + payload.len()) as u16;
    f.extend_from_slice(&[0x45, 0x00]);
    f.extend_from_slice(&total_len.to_be_bytes());
    f.extend_from_slice(&[0x12, 0x34, 0x40, 0x00, 64, proto, 0, 0]);
    f.extend_from_slice(&src);
    f.extend_from_slice(&dst);
    f.extend_from_slice(&sport.to_be_bytes());
    f.extend_from_slice(&dport.to_be_bytes());
    f.extend_from_slice(&((8 + payload.len()) as u16).to_be_bytes());
    f.extend_from_slice(&[0, 0]);
    f.extend_from_slice(payload);
    let ip = !fold(words_sum(&f[14..34]));
    f[24..26].copy_from_slice(&ip.to_be_bytes());
    let mut udp = !fold(udp_sum(&f));
    if udp == 0 {
        udp = 0xffff;
    }
    f[40..42].copy_from_slice(&udp.to_be_bytes());
    f
}

fn config(local: (u32, u32), backend: (u32, u32)) -> RouterConfig {
    RouterConfig {
        local_net_and_mask: ((local.0 as u64) << 32) | local.1 as u64,
        backend_net_and_mask: ((backend.0 as u64) << 32) | backend.1 as u64,
        gateway_mac_address: GATEWAY_MAC,
    }
}

fn no_match() -> (u32, u32) {
    (0xffff_ffff, 0xffff_ffff)
}

fn forward_frame() -> Vec<u8> {
    frame(
        CLIENT_MAC,
        ROUTER_MAC,
        17,
        [10, 1, 0, 5],
        [203, 0, 113, 7],
        1000,
        8888,
        &[0xc0, 0x00, 0x02, 0x0a, b'h', b'i'],
    )
}

fn zero_counters() -> PacketCounters {
    PacketCounters { total_packets: 0, client_to_server_packets: 0, server_to_client_packets: 0 }
}

#[test]
fn forward_rewrites_client_packet() {
    let mut p = forward_frame();
    assert!(ip_header_ok(&p) && udp_checksum_ok(&p));
    let cfg = config(no_match(), no_match());
    let mut counters = zero_counters();
    assert_eq!(udp_router(&mut p, &cfg, &mut counters), XDP_TX);
    assert_eq!(&p[0..6], &[0xcc; 6]);
    assert_eq!(&p[6..12], &ROUTER_MAC);
    assert_eq!(&p[26..30], &[203, 0, 113, 7]);
    assert_eq!(&p[30..34], &[192, 0, 2, 10]);
    assert_eq!(&p[42..], &[0x0a, 0x01, 0x00, 0x05, b'h', b'i']);
    assert!(ip_header_ok(&p));
    assert!(udp_checksum_ok(&p));
    assert_eq!(counters.total_packets, 1);
    assert_eq!(counters.client_to_server_packets, 1);
    assert_eq!(counters.server_to_client_packets, 0);
}

#[test]
fn reply_round_trip() {
    let cfg = config(no_match(), no_match());
    let mut p = forward_frame();
    assert_eq!(try_udp_router(&mut p, &cfg), Ok(XDP_TX));
    // the backend echoes the datagram: both MAC and IP addresses swapped
    let mut reply = p.clone();
    reply[0..6].copy_from_slice(&p[6..12]);
    reply[6..12].copy_from_slice(&p[0..6]);
    reply[26..30].copy_from_slice(&p[30..34]);
    reply[30..34].copy_from_slice(&p[26..30]);
    assert!(ip_header_ok(&reply) && udp_checksum_ok(&reply));
    assert_eq!(try_udp_router(&mut reply, &cfg), Ok(XDP_TX));
    assert_eq!(&reply[30..34], &[10, 1, 0, 5]);
    assert_eq!(&reply[26..30], &[203, 0, 113, 7]);
    assert_eq!(&reply[42..46], &[192, 0, 2, 10]);
    assert_eq!(&reply[46..], b"hi");
    assert!(ip_header_ok(&reply));
    assert!(udp_checksum_ok(&reply));
}

#[test]
fn local_net_passthrough() {
    let mut p = forward_frame();
    let before = p.clone();
    let cfg = config((0x0a00_0000, 0xff00_0000), no_match());
    let mut counters = zero_counters();
    assert_eq!(udp_router(&mut p, &cfg, &mut counters), XDP_PASS);
    assert_eq!(p, before);
    assert_eq!(counters.total_packets, 1);
    assert_eq!(counters.client_to_server_packets, 0);
}

#[test]
fn link_local_passthrough() {
    let mut p = frame(CLIENT_MAC, ROUTER_MAC, 17, [169, 254, 1, 1], [203, 0, 113, 7], 1, 2, &[1, 2, 3, 4]);
    let before = p.clone();
    assert_eq!(try_udp_router(&mut p, &config(no_match(), no_match())), Ok(XDP_PASS));
    assert_eq!(p, before);
}

#[test]
fn non_udp_passthrough() {
    let mut p = frame(CLIENT_MAC, ROUTER_MAC, 6, [10, 1, 0, 5], [203, 0, 113, 7], 1, 2, &[1, 2, 3, 4]);
    let before = p.clone();
    assert_eq!(try_udp_router(&mut p, &config(no_match(), no_match())), Ok(XDP_PASS));
    assert_eq!(p, before);
}

#[test]
fn non_ipv4_passthrough() {
    let mut p = forward_frame();
    p[12] = 0x86;
    p[13] = 0xdd;
    let before = p.clone();
    let mut counters = zero_counters();
    assert_eq!(udp_router(&mut p, &config(no_match(), no_match()), &mut counters), XDP_PASS);
    assert_eq!(p, before);
}

#[test]
fn truncated_payload_aborts() {
    let mut p = frame(CLIENT_MAC, ROUTER_MAC, 17, [10, 1, 0, 5], [203, 0, 113, 7], 1, 2, &[0xc0, 0x00]);
    let before = p.clone();
    let mut counters = zero_counters();
    assert_eq!(udp_router(&mut p, &config(no_match(), no_match()), &mut counters), XDP_ABORTED);
    assert_eq!(p, before);
    assert_eq!(counters.total_packets, 1);
    assert_eq!(counters.client_to_server_packets + counters.server_to_client_packets, 0);
}

#[test]
fn short_frames_abort() {
    let cfg = config(no_match(), no_match());
    let mut eth_only = vec![0u8; 13];
    assert_eq!(try_udp_router(&mut eth_only, &cfg), Err(()));
    let mut ip_cut = forward_frame();
    ip_cut.truncate(30);
    assert_eq!(try_udp_router(&mut ip_cut, &cfg), Err(()));
    let mut short = vec![0u8; 45];
    assert_eq!(try_forward_packet(&mut short, GATEWAY_MAC), Err(()));
    assert_eq!(short, vec![0u8; 45]);
}

#[test]
fn backend_source_counts_as_reply() {
    let mut p = forward_frame();
    let cfg = config(no_match(), (0x0a01_0000, 0xffff_0000));
    let mut counters = zero_counters();
    assert_eq!(udp_router(&mut p, &cfg, &mut counters), XDP_TX);
    assert_eq!(counters.server_to_client_packets, 1);
    assert_eq!(counters.client_to_server_packets, 0);
}

#[test]
fn counters_stay_at_maximum() {
    let mut p = forward_frame();
    let mut counters = PacketCounters {
        total_packets: u64::MAX,
        client_to_server_packets: u64::MAX - 1,
        server_to_client_packets: 0,
    };
    udp_router(&mut p, &config(no_match(), no_match()), &mut counters);
    assert_eq!(counters.total_packets, u64::MAX);
    assert_eq!(counters.client_to_server_packets, u64::MAX);
}

#[test]
fn stats_aggregate_over_cpus() {
    let cfg = config(no_match(), no_match());
    let mut cpus = vec![zero_counters(); 4];
    for n in 0..100 {
        let mut p = forward_frame();
        assert_eq!(udp_router(&mut p, &cfg, &mut cpus[n % 4]), XDP_TX);
    }
    let total: Vec<u64> = cpus.iter().map(|c| c.total_packets).collect();
    let c2s: Vec<u64> = cpus.iter().map(|c| c.client_to_server_packets).collect();
    let s2c: Vec<u64> = cpus.iter().map(|c| c.server_to_client_packets).collect();
    assert_eq!(total, vec![25, 25, 25, 25]);
    let stats = get_stats(&total, &c2s, &s2c);
    assert!(stats.total_packets >= 100);
    assert_eq!(stats.client_to_server_packets, stats.total_packets);
    assert_eq!(stats.server_to_client_packets, 0);
}

#[test]
fn forwarded_checksums_validate_on_many_inputs() {
    let mut seed: u64 = 0x2545_f491_4f6c_dd1d;
    let mut next = move || {
        seed ^= seed << 13;
        seed ^= seed >> 7;
        seed ^= seed << 17;
        seed
    };
    let cfg = config(no_match(), no_match());
    for _ in 0..1000 {
        let mut src = (next() as u32).to_be_bytes();
        // keep the sender out of the link-local and the unmatched local range
        if src[0] == 169 || src == [255; 4] {
            src[0] = 10;
        }
        let dst = (next() as u32).to_be_bytes();
        let target = (next() as u32).to_be_bytes();
        let len = 4 + (next() % 1397) as usize;
        let mut payload: Vec<u8> = (0..len).map(|_| next() as u8).collect();
        payload[0..4].copy_from_slice(&target);
        let mut p = frame(CLIENT_MAC, ROUTER_MAC, 17, src, dst, next() as u16, next() as u16, &payload);
        assert!(ip_header_ok(&p) && udp_checksum_ok(&p));
        assert_eq!(try_udp_router(&mut p, &cfg), Ok(XDP_TX));
        assert_eq!(&p[26..30], &dst);
        assert_eq!(&p[30..34], &target);
        assert_eq!(&p[42..46], &src);
        assert_eq!(&p[46..], &payload[4..]);
        assert!(ip_header_ok(&p));
        assert!(udp_checksum_ok(&p));
    }
}
