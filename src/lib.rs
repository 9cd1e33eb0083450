//! Parsing, validation and serialization of IPv4 / IPv6 headers with their
//! extension header chains, and the ICMPv6 header codec with its
//! pseudo-header checksum.

pub mod bytes;
pub mod checksum;
pub mod err;
pub mod ip_number;
pub mod ipv6_header;
pub mod icmpv6;
pub mod icmpv6_header;
pub mod ip_auth_header;
pub mod ipv4_extensions;
pub mod ipv4_header;
pub mod ipv6_ext_headers;
pub mod ipv6_extensions;
pub mod ip_header;

pub use icmpv6::{DestUnreachableHeader, IcmpEchoHeader, ParameterProblemCode, TimeExceededCode};
pub use icmpv6_header::{Icmp6Type, Icmpv6Header, Icmpv6HeaderSlice};
pub use ip_auth_header::IpAuthHeader;
pub use ip_header::{IpHeader, IpPayload};
pub use ipv4_extensions::Ipv4Extensions;
pub use ipv4_header::Ipv4Header;
pub use ipv6_ext_headers::{Ipv6FragmentHeader, Ipv6RawExtHeader};
pub use ipv6_extensions::Ipv6Extensions;
pub use ipv6_header::Ipv6Header;
