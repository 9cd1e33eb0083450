use vstd::prelude::*;

verus! {

/// An IP protocol number (the `protocol` field of IPv4 and the
/// `next_header` fields of IPv6 and of the extension headers).
pub type IpNumber = u8;

/// IPv6 Hop-by-Hop Option.
pub const IPV6_HOP_BY_HOP: u8 = 0;

/// Transmission Control Protocol.
pub const TCP: u8 = 6;

/// User Datagram Protocol.
pub const UDP: u8 = 17;

/// Routing Header for IPv6.
pub const IPV6_ROUTE: u8 = 43;

/// Fragment Header for IPv6.
pub const IPV6_FRAG: u8 = 44;

/// Authentication Header.
pub const AUTH: u8 = 51;

/// ICMP for IPv6.
pub const IPV6_ICMP: u8 = 58;

/// Destination Options for IPv6.
pub const IPV6_DEST_OPTIONS: u8 = 60;

/// True for the protocol numbers of the IPv6 extension headers that the
/// extension chain walker recognizes.
pub open spec fn is_ipv6_ext(n: u8) -> bool {
    n == IPV6_HOP_BY_HOP || n == IPV6_ROUTE || n == IPV6_FRAG || n == IPV6_DEST_OPTIONS || n == AUTH
}

} // verus!

verus! {

/// True for the protocol numbers of the IPv6 extension headers that the
/// extension chain walker recognizes.
pub fn is_ipv6_ext_number(n: u8) -> (r: bool)
    ensures
        r == is_ipv6_ext(n),
{
    n == IPV6_HOP_BY_HOP || n == IPV6_ROUTE || n == IPV6_FRAG || n == IPV6_DEST_OPTIONS || n == AUTH
}

} // verus!
