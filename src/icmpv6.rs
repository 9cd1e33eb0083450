//! ICMPv6 type and code values and the type-specific parts of the
//! messages this library decodes.
use vstd::prelude::*;
use crate::bytes::{be16, be16_bytes};

verus! {

/// ICMPv6 type value indicating a "Destination Unreachable" message.
pub const TYPE_DST_UNREACH: u8 = 1;

/// ICMPv6 type value indicating a "Packet Too Big" message.
pub const TYPE_PACKET_TOO_BIG: u8 = 2;

/// ICMPv6 type value indicating a "Time Exceeded" message.
pub const TYPE_TIME_EXCEEDED: u8 = 3;

/// ICMPv6 type value indicating a "Parameter Problem" message.
pub const TYPE_PARAM_PROB: u8 = 4;

/// ICMPv6 type value indicating an "Echo Request" message.
pub const TYPE_ECHO_REQUEST: u8 = 128;

/// ICMPv6 type value indicating an "Echo Reply" message.
pub const TYPE_ECHO_REPLY: u8 = 129;

/// ICMPv6 destination unreachable code for "no route to destination".
pub const CODE_DST_UNREACH_NOROUTE: u8 = 0;

/// ICMPv6 destination unreachable code for "communication with
/// destination administratively prohibited".
pub const CODE_DST_UNREACH_PROHIBITED: u8 = 1;

/// ICMPv6 destination unreachable code for "beyond scope of source address".
pub const CODE_DST_UNREACH_BEYONDSCOPE: u8 = 2;

/// ICMPv6 destination unreachable code for "address unreachable".
pub const CODE_DST_UNREACH_ADDR: u8 = 3;

/// ICMPv6 destination unreachable code for "port unreachable".
pub const CODE_DST_UNREACH_PORT: u8 = 4;

/// ICMPv6 destination unreachable code for "source address failed ingress/egress policy".
pub const CODE_DST_UNREACH_SOURCE_ADDRESS_FAILED_POLICY: u8 = 5;

/// ICMPv6 destination unreachable code for "reject route to destination".
pub const CODE_DST_UNREACH_REJECT_ROUTE_TO_DEST: u8 = 6;

/// ICMPv6 time exceeded code for "hop limit exceeded in transit".
pub const CODE_TIME_EXCEEDED_HOP_LIMIT_EXCEEDED: u8 = 0;

/// ICMPv6 time exceeded code for "fragment reassembly time exceeded".
pub const CODE_TIME_EXCEEDED_FRAGMENT_REASSEMBLY_TIME_EXCEEDED: u8 = 1;

/// "Destination Unreachable" ICMPv6 header (without the invoking packet).
#[derive(Clone, Copy, Debug, PartialEq, Eq)]
pub enum DestUnreachableHeader {
    /// An unknown code; the header elements are stored raw.
    Raw { code: u8, bytes5to8: [u8; 4] },
    /// No route to destination
    NoRoute,
    /// Communication with destination administratively prohibited
    Prohibited,
    /// Beyond scope of source address
    BeyondScope,
    /// Address unreachable
    Address,
    /// Port unreachable
    Port,
    /// Source address failed ingress/egress policy
    SourceAddressFailedPolicy,
    /// Reject route to destination
    RejectRoute,
}

impl DestUnreachableHeader {
    pub open spec fn spec_from_bytes(code: u8, bytes5to8: [u8; 4]) -> DestUnreachableHeader {
        match code {
            0 => DestUnreachableHeader::NoRoute,
            1 => DestUnreachableHeader::Prohibited,
            2 => DestUnreachableHeader::BeyondScope,
            3 => DestUnreachableHeader::Address,
            4 => DestUnreachableHeader::Port,
            5 => DestUnreachableHeader::SourceAddressFailedPolicy,
            6 => DestUnreachableHeader::RejectRoute,
            _ => DestUnreachableHeader::Raw { code, bytes5to8 },
        }
    }

    pub open spec fn spec_code(&self) -> u8 {
        match self {
            DestUnreachableHeader::Raw { code, .. } => *code,
            DestUnreachableHeader::NoRoute => 0,
            DestUnreachableHeader::Prohibited => 1,
            DestUnreachableHeader::BeyondScope => 2,
            DestUnreachableHeader::Address => 3,
            DestUnreachableHeader::Port => 4,
            DestUnreachableHeader::SourceAddressFailedPolicy => 5,
            DestUnreachableHeader::RejectRoute => 6,
        }
    }

    /// The bytes 5 to 8 that the header is emitted with.
    pub open spec fn spec_bytes5to8(&self) -> Seq<u8> {
        match self {
            DestUnreachableHeader::Raw { bytes5to8, .. } => bytes5to8@,
            _ => seq![0u8, 0u8, 0u8, 0u8],
        }
    }

    /// Converts the code (second octet) and the 5th to 8th octets of a
    /// "destination unreachable" message into the header.
    pub fn from_bytes(code: u8, bytes5to8: [u8; 4]) -> (r: DestUnreachableHeader)
        ensures
            r == DestUnreachableHeader::spec_from_bytes(code, bytes5to8),
    {
        match code {
            CODE_DST_UNREACH_NOROUTE => DestUnreachableHeader::NoRoute,
            CODE_DST_UNREACH_PROHIBITED => DestUnreachableHeader::Prohibited,
            CODE_DST_UNREACH_BEYONDSCOPE => DestUnreachableHeader::BeyondScope,
            CODE_DST_UNREACH_ADDR => DestUnreachableHeader::Address,
            CODE_DST_UNREACH_PORT => DestUnreachableHeader::Port,
            CODE_DST_UNREACH_SOURCE_ADDRESS_FAILED_POLICY => DestUnreachableHeader::SourceAddressFailedPolicy,
            CODE_DST_UNREACH_REJECT_ROUTE_TO_DEST => DestUnreachableHeader::RejectRoute,
            _ => DestUnreachableHeader::Raw { code, bytes5to8 },
        }
    }

    /// Returns the code value (second octet of the ICMPv6 packet).
    pub fn code(&self) -> (r: u8)
        ensures
            r == self.spec_code(),
    {
        match self {
            DestUnreachableHeader::Raw { code, .. } => *code,
            DestUnreachableHeader::NoRoute => CODE_DST_UNREACH_NOROUTE,
            DestUnreachableHeader::Prohibited => CODE_DST_UNREACH_PROHIBITED,
            DestUnreachableHeader::BeyondScope => CODE_DST_UNREACH_BEYONDSCOPE,
            DestUnreachableHeader::Address => CODE_DST_UNREACH_ADDR,
            DestUnreachableHeader::Port => CODE_DST_UNREACH_PORT,
            DestUnreachableHeader::SourceAddressFailedPolicy => CODE_DST_UNREACH_SOURCE_ADDRESS_FAILED_POLICY,
            DestUnreachableHeader::RejectRoute => CODE_DST_UNREACH_REJECT_ROUTE_TO_DEST,
        }
    }

    /// Returns the second and the 5th to 8th octets of the message.
    pub fn to_bytes(&self) -> (r: (u8, [u8; 4]))
        ensures
            r.0 == self.spec_code(),
            r.1@ == self.spec_bytes5to8(),
    {
        let r = match self {
            DestUnreachableHeader::Raw { code, bytes5to8 } => (*code, *bytes5to8),
            _ => (self.code(), [0u8; 4]),
        };
        assert(r.1@ =~= self.spec_bytes5to8());
        r
    }
}

/// Code values for ICMPv6 time exceeded messages.
#[derive(Clone, Copy, Debug, PartialEq, Eq, Structural)]
pub enum TimeExceededCode {
    /// An unknown code, stored raw.
    Raw { code: u8 },
    /// "hop limit exceeded in transit"
    HopLimitExceeded,
    /// "fragment reassembly time exceeded"
    FragmentReassemblyTimeExceeded,
}

impl TimeExceededCode {
    pub open spec fn spec_from_code(code: u8) -> TimeExceededCode {
        if code == 0 {
            TimeExceededCode::HopLimitExceeded
        } else if code == 1 {
            TimeExceededCode::FragmentReassemblyTimeExceeded
        } else {
            TimeExceededCode::Raw { code }
        }
    }

    pub open spec fn spec_code(&self) -> u8 {
        match self {
            TimeExceededCode::Raw { code } => *code,
            TimeExceededCode::HopLimitExceeded => 0,
            TimeExceededCode::FragmentReassemblyTimeExceeded => 1,
        }
    }
}

impl From<u8> for TimeExceededCode {
    fn from(code: u8) -> (r: TimeExceededCode) {
        match code {
            CODE_TIME_EXCEEDED_HOP_LIMIT_EXCEEDED => TimeExceededCode::HopLimitExceeded,
            CODE_TIME_EXCEEDED_FRAGMENT_REASSEMBLY_TIME_EXCEEDED => TimeExceededCode::FragmentReassemblyTimeExceeded,
            code => TimeExceededCode::Raw { code },
        }
    }
}

impl vstd::std_specs::convert::FromSpecImpl<u8> for TimeExceededCode {
    open spec fn obeys_from_spec() -> bool {
        true
    }

    open spec fn from_spec(code: u8) -> TimeExceededCode {
        TimeExceededCode::spec_from_code(code)
    }
}

impl From<TimeExceededCode> for u8 {
    fn from(code: TimeExceededCode) -> (r: u8) {
        match code {
            TimeExceededCode::Raw { code } => code,
            TimeExceededCode::HopLimitExceeded => CODE_TIME_EXCEEDED_HOP_LIMIT_EXCEEDED,
            TimeExceededCode::FragmentReassemblyTimeExceeded => CODE_TIME_EXCEEDED_FRAGMENT_REASSEMBLY_TIME_EXCEEDED,
        }
    }
}

impl vstd::std_specs::convert::FromSpecImpl<TimeExceededCode> for u8 {
    open spec fn obeys_from_spec() -> bool {
        true
    }

    open spec fn from_spec(code: TimeExceededCode) -> u8 {
        code.spec_code()
    }
}

/// Code values for ICMPv6 parameter problem messages.
#[derive(Clone, Copy, Debug, PartialEq, Eq, Structural)]
pub enum ParameterProblemCode {
    /// The code, stored raw.
    Raw { code: u8 },
}

impl ParameterProblemCode {
    pub open spec fn spec_code(&self) -> u8 {
        match self {
            ParameterProblemCode::Raw { code } => *code,
        }
    }
}

impl From<u8> for ParameterProblemCode {
    fn from(code: u8) -> (r: ParameterProblemCode) {
        ParameterProblemCode::Raw { code }
    }
}

impl vstd::std_specs::convert::FromSpecImpl<u8> for ParameterProblemCode {
    open spec fn obeys_from_spec() -> bool {
        true
    }

    open spec fn from_spec(code: u8) -> ParameterProblemCode {
        ParameterProblemCode::Raw { code }
    }
}

impl From<ParameterProblemCode> for u8 {
    fn from(code: ParameterProblemCode) -> (r: u8) {
        match code {
            ParameterProblemCode::Raw { code } => code,
        }
    }
}

impl vstd::std_specs::convert::FromSpecImpl<ParameterProblemCode> for u8 {
    open spec fn obeys_from_spec() -> bool {
        true
    }

    open spec fn from_spec(code: ParameterProblemCode) -> u8 {
        code.spec_code()
    }
}

/// Identifier and sequence number of an echo request or reply.
#[derive(Clone, Copy, Debug, PartialEq, Eq, Structural)]
pub struct IcmpEchoHeader {
    pub id: u16,
    pub seq: u16,
}

impl IcmpEchoHeader {
    pub open spec fn spec_from_bytes(b: [u8; 4]) -> IcmpEchoHeader {
        IcmpEchoHeader { id: be16(b[0], b[1]), seq: be16(b[2], b[3]) }
    }

    pub open spec fn spec_bytes(&self) -> Seq<u8> {
        be16_bytes(self.id) + be16_bytes(self.seq)
    }

    /// Decodes the identifier and sequence number from the 5th to 8th octets.
    pub fn from_bytes(b: [u8; 4]) -> (r: IcmpEchoHeader)
        ensures
            r == IcmpEchoHeader::spec_from_bytes(b),
    {
        IcmpEchoHeader {
            id: crate::bytes::read_be16(b[0], b[1]),
            seq: crate::bytes::read_be16(b[2], b[3]),
        }
    }

    /// The 5th to 8th octets of the message.
    pub fn to_bytes(&self) -> (r: [u8; 4])
        ensures
            r@ == self.spec_bytes(),
    {
        let r = [(self.id / 256) as u8, (self.id % 256) as u8, (self.seq / 256) as u8, (self.seq % 256) as u8];
        assert(r@ =~= self.spec_bytes());
        r
    }
}

} // verus!
