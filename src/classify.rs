//! Classification of source addresses against the configured networks.
use vstd::prelude::*;

verus! {

/// The network half of a packed `(network << 32) | mask` value.
pub open spec fn net_of(net_and_mask: u64) -> u32 {
    (net_and_mask >> 32) as u32
}

/// The mask half of a packed `(network << 32) | mask` value.
pub open spec fn mask_of(net_and_mask: u64) -> u32 {
    (net_and_mask & 0xffff_ffff) as u32
}

/// `ip` matches the packed network and mask: `ip & mask == network`.
pub open spec fn in_net(ip: u32, net_and_mask: u64) -> bool {
    (ip & mask_of(net_and_mask)) == net_of(net_and_mask)
}

/// `ip` lies in 169.254.0.0/16.
pub open spec fn link_local(ip: u32) -> bool {
    ip / 0x10000 == 0xa9fe
}

/// The six bytes of a MAC address held right-aligned in a `u64`, most
/// significant first.
pub open spec fn mac_bytes(mac: u64) -> Seq<u8> {
    seq![
        (mac >> 40) as u8,
        (mac >> 32) as u8,
        (mac >> 24) as u8,
        (mac >> 16) as u8,
        (mac >> 8) as u8,
        mac as u8,
    ]
}

/// True when `ip` lies in the link-local range 169.254.0.0/16.
pub fn is_link_local_ip(ip: u32) -> (r: bool)
    ensures
        r == link_local(ip),
{
    let link_local: u32 = 0xa9fe0000;
    let link_local_mask: u32 = 0xffff0000;
    let r = (ip & link_local_mask) == link_local;
    assert(r == (ip / 0x10000 == 0xa9fe)) by (bit_vector)
        requires
            r == ((ip & 0xffff0000u32) == 0xa9fe0000u32),
    ;
    r
}

/// True when `ip` lies in the local network, given as `(network << 32) | mask`.
pub fn is_from_local_network(ip: u32, local_and_mask: u64) -> (r: bool)
    ensures
        r == in_net(ip, local_and_mask),
{
    let local = (local_and_mask >> 32) as u32;
    let local_mask = (local_and_mask & 0xffff_ffff) as u32;
    (ip & local_mask) == local
}

/// True when `ip` lies in the backend network, given as `(network << 32) | mask`.
pub fn is_from_backend_server(ip: u32, net_and_mask: u64) -> (r: bool)
    ensures
        r == in_net(ip, net_and_mask),
{
    let net = (net_and_mask >> 32) as u32;
    let mask = (net_and_mask & 0xffff_ffff) as u32;
    (ip & mask) == net
}

/// The six bytes of the gateway's MAC address, held right-aligned in `mac`.
pub fn get_gateway_mac_address(mac: u64) -> (r: [u8; 6])
    ensures
        r@ == mac_bytes(mac),
{
    let r = [
        (mac >> 40) as u8,
        (mac >> 32) as u8,
        (mac >> 24) as u8,
        (mac >> 16) as u8,
        (mac >> 8) as u8,
        mac as u8,
    ];
    assert(r@ =~= mac_bytes(mac));
    r
}

} // verus!
