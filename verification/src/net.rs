//! Classification of peer network addresses: the origin gate admits only
//! requests coming from a private address.

use vstd::prelude::*;

verus! {

/// A peer address: the four octets of an IPv4 address or the eight 16-bit
/// segments of an IPv6 address.
#[derive(Clone, Copy, Debug)]
pub enum IpAddress {
    V4 { octets: [u8; 4] },
    V6 { segments: [u16; 8] },
}

/// An IPv4 address is private when it lies in 10.0.0.0/8, 172.16.0.0/12,
/// 192.168.0.0/16 or 127.0.0.0/8.
pub open spec fn is_private_v4(octets: Seq<u8>) -> bool {
    ||| octets[0] == 10
    ||| octets[0] == 172 && 16 <= octets[1] && octets[1] <= 31
    ||| octets[0] == 192 && octets[1] == 168
    ||| octets[0] == 127
}

/// The IPv6 loopback address `::1`.
pub open spec fn is_loopback_v6(segments: Seq<u16>) -> bool {
    &&& forall|i: int| 0 <= i < 7 ==> segments[i] == 0
    &&& segments[7] == 1
}

/// An IPv6 address is private when it is the loopback address or a
/// unique-local address (`fc00::/7`).
pub open spec fn is_private_v6(segments: Seq<u16>) -> bool {
    ||| is_loopback_v6(segments)
    ||| segments[0] & 0xfe00 == 0xfc00
}

pub open spec fn is_private_ip_spec(ip: IpAddress) -> bool {
    match ip {
        IpAddress::V4 { octets } => is_private_v4(octets@),
        IpAddress::V6 { segments } => is_private_v6(segments@),
    }
}

impl IpAddress {
    /// Builds an IPv4 address from its octets.
    pub fn v4(a: u8, b: u8, c: u8, d: u8) -> (r: IpAddress)
        ensures
            r == (IpAddress::V4 { octets: [a, b, c, d] }),
    {
        IpAddress::V4 { octets: [a, b, c, d] }
    }

    /// Builds an IPv6 address from its eight segments.
    pub fn v6(a: u16, b: u16, c: u16, d: u16, e: u16, f: u16, g: u16, h: u16) -> (r: IpAddress)
        ensures
            r == (IpAddress::V6 { segments: [a, b, c, d, e, f, g, h] }),
    {
        IpAddress::V6 { segments: [a, b, c, d, e, f, g, h] }
    }
}

/// Decides whether a peer address lies in the private address space.
pub fn is_private_ip(ip: &IpAddress) -> (r: bool)
    ensures
        r == is_private_ip_spec(*ip),
{
    match ip {
        IpAddress::V4 { octets } => {
            if octets[0] == 10 {
                return true;
            }
            if octets[0] == 172 && 16 <= octets[1] && octets[1] <= 31 {
                return true;
            }
            if octets[0] == 192 && octets[1] == 168 {
                return true;
            }
            if octets[0] == 127 {
                return true;
            }
            false
        },
        IpAddress::V6 { segments } => {
            let loopback = segments[0] == 0 && segments[1] == 0 && segments[2] == 0
                && segments[3] == 0 && segments[4] == 0 && segments[5] == 0 && segments[6] == 0
                && segments[7] == 1;
            if loopback {
                assert(is_loopback_v6(segments@)) by {
                    assert(forall|i: int| 0 <= i < 7 ==> segments@[i] == 0);
                };
                return true;
            }
            if segments[0] & 0xfe00 == 0xfc00 {
                return true;
            }
            assert(!is_loopback_v6(segments@));
            false
        },
    }
}

/// Every IPv4 address in 10.0.0.0/8, 172.16.0.0/12, 192.168.0.0/16 or
/// 127.0.0.0/8 passes the origin gate.
pub proof fn lemma_ipv4_private_ranges(ip: IpAddress)
    requires
        ip matches IpAddress::V4 { octets } && {
            ||| octets[0] == 10
            ||| octets[0] == 172 && 16 <= octets[1] && octets[1] <= 31
            ||| octets[0] == 192 && octets[1] == 168
            ||| octets[0] == 127
        },
    ensures
        is_private_ip_spec(ip),
{
}

/// The unique-local mask test accepts exactly the addresses whose leading
/// seven bits are `1111110`.
pub proof fn lemma_ula_mask_is_top_seven_bits(s: u16)
    ensures
        (s & 0xfe00 == 0xfc00) <==> (s >> 9 == 0x7e),
{
    assert((s & 0xfe00 == 0xfc00) <==> (s >> 9 == 0x7e)) by (bit_vector);
}

/// Every IPv6 address equal to `::1`, and every address whose leading seven
/// bits are `1111110`, passes the origin gate.
pub proof fn lemma_ipv6_private_ranges(ip: IpAddress)
    requires
        ip matches IpAddress::V6 { segments } && {
            ||| is_loopback_v6(segments@)
            ||| segments[0] >> 9 == 0x7e
        },
    ensures
        is_private_ip_spec(ip),
{
    let segments = ip->V6_segments;
    lemma_ula_mask_is_top_seven_bits(segments[0]);
}

} // verus!
