use vstd::prelude::*;

verus! {

/// Which length bound governed a slicing decision.
#[derive(Clone, Copy, Debug, PartialEq, Eq, Structural)]
pub enum LenSource {
    /// The length of the outer buffer.
    Slice,
    /// The `total_len` field of an IPv4 header.
    Ipv4HeaderTotalLen,
    /// The `payload_length` field of an IPv6 header.
    Ipv6HeaderPayloadLen,
}

/// The layer on which a length error occurred.
#[derive(Clone, Copy, Debug, PartialEq, Eq, Structural)]
pub enum Layer {
    IpHeader,
    Ipv4Header,
    Ipv4Packet,
    Ipv6Header,
    Ipv6Packet,
    IpAuthHeader,
    Ipv6ExtHeader,
    Ipv6FragHeader,
    Icmpv6,
}

/// Not enough octets were available to decode a layer.
#[derive(Clone, Copy, Debug, PartialEq, Eq, Structural)]
pub struct LenError {
    /// Octets required to decode the layer.
    pub required_len: usize,
    /// Octets that were available.
    pub len: usize,
    /// The bound that limited the available octets.
    pub len_source: LenSource,
    /// The layer that could not be decoded.
    pub layer: Layer,
    /// Offset of the start of the layer from the start of the outermost slice.
    pub layer_start_offset: usize,
}

/// Content errors of an authentication header.
#[derive(Clone, Copy, Debug, PartialEq, Eq, Structural)]
pub enum IpAuthHeaderError {
    /// The payload length field is zero, which is shorter than the fixed part.
    ZeroPayloadLen,
}

/// Errors when decoding an authentication header (or an extension chain) from a slice.
#[derive(Clone, Copy, Debug, PartialEq, Eq, Structural)]
pub enum IpAuthHeaderSliceError {
    Len(LenError),
    Content(IpAuthHeaderError),
}

/// Error when the extension headers of a header are not all reachable
/// through the `next_header` chain.
#[derive(Clone, Copy, Debug, PartialEq, Eq, Structural)]
pub enum ExtsWalkError {
    /// An extension header is present but not referenced.
    ExtNotReferenced { missing_ext: u8 },
}

/// Content errors of an IP header and its extensions.
#[derive(Clone, Copy, Debug, PartialEq, Eq, Structural)]
pub enum IpHeaderError {
    /// The version nibble is neither 4 nor 6.
    UnsupportedIpVersion { version_number: u8 },
    /// The IPv4 IHL field is smaller than 5.
    Ipv4HeaderLengthSmallerThanHeader { ihl: u8 },
    /// Error in an IPv4 extension header.
    Ipv4Ext(IpAuthHeaderError),
    /// Error in an IPv6 extension header.
    Ipv6Ext(IpAuthHeaderError),
}

/// Errors when decoding an IP header from a slice.
#[derive(Clone, Copy, Debug, PartialEq, Eq, Structural)]
pub enum IpHeaderSliceError {
    Len(LenError),
    Content(IpHeaderError),
}

/// Content errors of an IPv4 header.
#[derive(Clone, Copy, Debug, PartialEq, Eq, Structural)]
pub enum Ipv4HeaderError {
    /// The version nibble is not 4.
    UnexpectedVersion { version_number: u8 },
    /// The IHL field is smaller than 5.
    HeaderLengthSmallerThanHeader { ihl: u8 },
}

/// Errors when decoding an IPv4 header with its extensions from a slice.
#[derive(Clone, Copy, Debug, PartialEq, Eq, Structural)]
pub enum Ipv4SliceError {
    Len(LenError),
    Header(Ipv4HeaderError),
    Exts(IpAuthHeaderError),
}

/// Content errors of an IPv6 header.
#[derive(Clone, Copy, Debug, PartialEq, Eq, Structural)]
pub enum Ipv6HeaderError {
    /// The version nibble is not 6.
    UnexpectedVersion { version_number: u8 },
}

/// Errors when decoding an IPv6 header with its extensions from a slice.
#[derive(Clone, Copy, Debug, PartialEq, Eq, Structural)]
pub enum Ipv6SliceError {
    Len(LenError),
    Header(Ipv6HeaderError),
    Exts(IpAuthHeaderError),
}

/// Errors when serializing an IP header with its extensions.
#[derive(Clone, Copy, Debug, PartialEq, Eq, Structural)]
pub enum HeaderWriteError {
    Ipv4Exts(ExtsWalkError),
    Ipv6Exts(ExtsWalkError),
}

/// Errors when reading the extension chain of an IP header.
#[derive(Clone, Copy, Debug, PartialEq, Eq, Structural)]
pub enum IpExtsWalkError {
    Ipv4Exts(ExtsWalkError),
    Ipv6Exts(ExtsWalkError),
}

/// The kind of value that did not fit.
#[derive(Clone, Copy, Debug, PartialEq, Eq, Structural)]
pub enum ValueType {
    Ipv4PayloadLength,
    Ipv6PayloadLength,
    IpAuthIcv,
}

/// A value is larger than its field can hold.
#[derive(Clone, Copy, Debug, PartialEq, Eq, Structural)]
pub struct ValueTooBigError {
    pub actual: usize,
    pub max_allowed: usize,
    pub value_type: ValueType,
}

/// Errors of values that cannot be represented in a header.
#[derive(Clone, Copy, Debug, PartialEq, Eq, Structural)]
pub enum ValueError {
    /// The ICMPv6 message is longer than a 32 bit length can state.
    Ipv6PayloadLengthTooLarge(usize),
    /// The length of an authentication header ICV is not a multiple of 4
    /// or longer than the header can hold.
    IpAuthIcvLen(usize),
}

/// Errors when reading from a slice without a length context.
#[derive(Clone, Copy, Debug, PartialEq, Eq, Structural)]
pub enum ReadError {
    /// The slice ended before the given number of octets.
    UnexpectedEndOfSlice(usize),
}

} // verus!
