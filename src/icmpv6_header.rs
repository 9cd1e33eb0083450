use vstd::prelude::*;
use crate::bytes::{be16, be16_bytes, be32, be32_bytes, read_be16, read_be32};
use crate::checksum::{add_words, finish_checksum, internet_checksum, word_sum, lemma_word_sum_concat, lemma_word_sum_bound};
use crate::err::{ReadError, ValueError};
use crate::icmpv6::{
    DestUnreachableHeader, IcmpEchoHeader, ParameterProblemCode, TimeExceededCode,
    TYPE_DST_UNREACH, TYPE_ECHO_REPLY, TYPE_ECHO_REQUEST, TYPE_PACKET_TOO_BIG, TYPE_PARAM_PROB,
    TYPE_TIME_EXCEEDED,
};
use crate::ipv6_header::Ipv6Header;

verus! {

/// Length of the ICMPv6 header in octets.
pub const ICMPV6_HEADER_LEN: usize = 8;

/// Different kinds of ICMPv6 messages: the statically sized data at the start
/// of an ICMPv6 packet without the checksum.
#[derive(Clone, Copy, Debug, PartialEq, Eq)]
#[allow(inconsistent_fields)]
pub enum Icmp6Type {
    /// An unknown type; the first 8 octets are stored raw.
    Raw { icmp_type: u8, icmp_code: u8, bytes5to8: [u8; 4] },
    /// Start of a "Destination Unreachable" message.
    DestinationUnreachable(DestUnreachableHeader),
    /// Start of a "Packet Too Big" message.
    PacketTooBig {
        /// The Maximum Transmission Unit of the next-hop link.
        mtu: u32,
    },
    /// Start of a "Time Exceeded" message.
    TimeExceeded { code: TimeExceededCode },
    /// Start of a "Parameter Problem" message.
    ParameterProblem {
        code: ParameterProblemCode,
        /// Octet offset within the invoking packet where the error was detected.
        pointer: u32,
    },
    /// Start of an "Echo Request" message.
    EchoRequest(IcmpEchoHeader),
    /// Start of an "Echo Reply" message.
    EchoReply(IcmpEchoHeader),
}

/// The RFC 4443 checksum of an ICMPv6 message: the Internet checksum over the
/// pseudo-header (source, destination, 32 bit upper-layer length, three zero
/// octets, next header 58) followed by the message with a zero checksum field.
pub open spec fn icmpv6_checksum(
    source: Seq<u8>,
    destination: Seq<u8>,
    icmp_type: u8,
    icmp_code: u8,
    bytes5to8: Seq<u8>,
    payload: Seq<u8>,
) -> u16 {
    internet_checksum(
        source + destination + be32_bytes((payload.len() + 8) as u32) + seq![0u8, 0u8, 0u8, 58u8]
            + seq![icmp_type, icmp_code, 0u8, 0u8] + bytes5to8 + payload,
    )
}

/// A message of `payload_len` octets after the 8 octet header has a length
/// that fits the pseudo-header's 32 bit field.
pub open spec fn icmpv6_len_fits(payload_len: nat) -> bool {
    payload_len + 8 <= u32::MAX
}

pub open spec fn is_known_icmpv6_type(t: u8) -> bool {
    t == 1 || t == 2 || t == 3 || t == 4 || t == 128 || t == 129
}

impl Icmp6Type {
    pub open spec fn spec_from_bytes(icmp_type: u8, icmp_code: u8, b: [u8; 4]) -> Icmp6Type {
        match icmp_type {
            1 => Icmp6Type::DestinationUnreachable(DestUnreachableHeader::spec_from_bytes(icmp_code, b)),
            2 => Icmp6Type::PacketTooBig { mtu: be32(b[0], b[1], b[2], b[3]) },
            3 => Icmp6Type::TimeExceeded { code: TimeExceededCode::spec_from_code(icmp_code) },
            4 => Icmp6Type::ParameterProblem {
                code: ParameterProblemCode::Raw { code: icmp_code },
                pointer: be32(b[0], b[1], b[2], b[3]),
            },
            128 => Icmp6Type::EchoRequest(IcmpEchoHeader::spec_from_bytes(b)),
            129 => Icmp6Type::EchoReply(IcmpEchoHeader::spec_from_bytes(b)),
            _ => Icmp6Type::Raw { icmp_type, icmp_code, bytes5to8: b },
        }
    }

    pub open spec fn spec_type_value(&self) -> u8 {
        match self {
            Icmp6Type::Raw { icmp_type, .. } => *icmp_type,
            Icmp6Type::DestinationUnreachable(_) => 1,
            Icmp6Type::PacketTooBig { .. } => 2,
            Icmp6Type::TimeExceeded { .. } => 3,
            Icmp6Type::ParameterProblem { .. } => 4,
            Icmp6Type::EchoRequest(_) => 128,
            Icmp6Type::EchoReply(_) => 129,
        }
    }

    pub open spec fn spec_code_value(&self) -> u8 {
        match self {
            Icmp6Type::Raw { icmp_code, .. } => *icmp_code,
            Icmp6Type::DestinationUnreachable(h) => h.spec_code(),
            Icmp6Type::PacketTooBig { .. } => 0,
            Icmp6Type::TimeExceeded { code } => code.spec_code(),
            Icmp6Type::ParameterProblem { code, .. } => code.spec_code(),
            Icmp6Type::EchoRequest(_) => 0,
            Icmp6Type::EchoReply(_) => 0,
        }
    }

    pub open spec fn spec_bytes5to8(&self) -> Seq<u8> {
        match self {
            Icmp6Type::Raw { bytes5to8, .. } => bytes5to8@,
            Icmp6Type::DestinationUnreachable(h) => h.spec_bytes5to8(),
            Icmp6Type::PacketTooBig { mtu } => be32_bytes(*mtu),
            Icmp6Type::TimeExceeded { .. } => seq![0u8, 0u8, 0u8, 0u8],
            Icmp6Type::ParameterProblem { pointer, .. } => be32_bytes(*pointer),
            Icmp6Type::EchoRequest(e) => e.spec_bytes(),
            Icmp6Type::EchoReply(e) => e.spec_bytes(),
        }
    }

    /// The checksum of a message of this type after `ip_header` with `payload`.
    pub open spec fn spec_checksum(&self, ip_header: Ipv6Header, payload: Seq<u8>) -> u16 {
        icmpv6_checksum(
            ip_header.source@,
            ip_header.destination@,
            self.spec_type_value(),
            self.spec_code_value(),
            self.spec_bytes5to8(),
            payload,
        )
    }

    /// Decodes the type from the type, code and 5th to 8th octets of an ICMPv6 header.
    pub fn from_bytes(icmp_type: u8, icmp_code: u8, bytes5to8: [u8; 4]) -> (r: Icmp6Type)
        ensures
            r == Icmp6Type::spec_from_bytes(icmp_type, icmp_code, bytes5to8),
    {
        match icmp_type {
            TYPE_DST_UNREACH => Icmp6Type::DestinationUnreachable(
                DestUnreachableHeader::from_bytes(icmp_code, bytes5to8),
            ),
            TYPE_PACKET_TOO_BIG => Icmp6Type::PacketTooBig {
                mtu: read_be32(bytes5to8[0], bytes5to8[1], bytes5to8[2], bytes5to8[3]),
            },
            TYPE_TIME_EXCEEDED => Icmp6Type::TimeExceeded { code: TimeExceededCode::from(icmp_code) },
            TYPE_PARAM_PROB => Icmp6Type::ParameterProblem {
                code: ParameterProblemCode::from(icmp_code),
                pointer: read_be32(bytes5to8[0], bytes5to8[1], bytes5to8[2], bytes5to8[3]),
            },
            TYPE_ECHO_REQUEST => Icmp6Type::EchoRequest(IcmpEchoHeader::from_bytes(bytes5to8)),
            TYPE_ECHO_REPLY => Icmp6Type::EchoReply(IcmpEchoHeader::from_bytes(bytes5to8)),
            _ => Icmp6Type::Raw { icmp_type, icmp_code, bytes5to8 },
        }
    }

    /// Returns the type value (first octet of the ICMPv6 header).
    pub fn type_value(&self) -> (r: u8)
        ensures
            r == self.spec_type_value(),
    {
        match self {
            Icmp6Type::Raw { icmp_type, .. } => *icmp_type,
            Icmp6Type::DestinationUnreachable(_) => TYPE_DST_UNREACH,
            Icmp6Type::PacketTooBig { .. } => TYPE_PACKET_TOO_BIG,
            Icmp6Type::TimeExceeded { .. } => TYPE_TIME_EXCEEDED,
            Icmp6Type::ParameterProblem { .. } => TYPE_PARAM_PROB,
            Icmp6Type::EchoRequest(_) => TYPE_ECHO_REQUEST,
            Icmp6Type::EchoReply(_) => TYPE_ECHO_REPLY,
        }
    }

    /// Returns the code value (second octet of the ICMPv6 header).
    pub fn code_value(&self) -> (r: u8)
        ensures
            r == self.spec_code_value(),
    {
        match self {
            Icmp6Type::Raw { icmp_code, .. } => *icmp_code,
            Icmp6Type::DestinationUnreachable(h) => h.code(),
            Icmp6Type::PacketTooBig { .. } => 0,
            Icmp6Type::TimeExceeded { code } => u8::from(*code),
            Icmp6Type::ParameterProblem { code, .. } => u8::from(*code),
            Icmp6Type::EchoRequest(_) => 0,
            Icmp6Type::EchoReply(_) => 0,
        }
    }

    /// Returns the type, the code and the 5th to 8th octets of the header.
    pub fn to_bytes(&self) -> (r: (u8, u8, [u8; 4]))
        ensures
            r.0 == self.spec_type_value(),
            r.1 == self.spec_code_value(),
            r.2@ == self.spec_bytes5to8(),
    {
        let b: [u8; 4] = match self {
            Icmp6Type::Raw { bytes5to8, .. } => *bytes5to8,
            Icmp6Type::DestinationUnreachable(h) => h.to_bytes().1,
            Icmp6Type::PacketTooBig { mtu } => u32_be_bytes(*mtu),
            Icmp6Type::TimeExceeded { .. } => [0u8; 4],
            Icmp6Type::ParameterProblem { pointer, .. } => u32_be_bytes(*pointer),
            Icmp6Type::EchoRequest(e) => e.to_bytes(),
            Icmp6Type::EchoReply(e) => e.to_bytes(),
        };
        assert(b@ =~= self.spec_bytes5to8());
        (self.type_value(), self.code_value(), b)
    }

    /// Calculates the checksum of the ICMPv6 message that starts with this
    /// type, follows `ip_header` and carries `payload`.
    pub fn calc_checksum(&self, ip_header: &Ipv6Header, payload: &[u8]) -> (r: Result<u16, ValueError>)
        ensures
            icmpv6_len_fits(payload@.len()) ==> r == Ok::<u16, ValueError>(self.spec_checksum(*ip_header, payload@)),
            !icmpv6_len_fits(payload@.len()) ==> r == Err::<u16, _>(ValueError::Ipv6PayloadLengthTooLarge(payload@.len() as usize)),
    {
        if payload.len() > (u32::MAX as usize) - ICMPV6_HEADER_LEN {
            return Err(ValueError::Ipv6PayloadLengthTooLarge(payload.len()));
        }
        let (t, c, b) = self.to_bytes();
        let len: u32 = (payload.len() + ICMPV6_HEADER_LEN) as u32;
        let ghost src = ip_header.source@;
        let ghost dst = ip_header.destination@;
        let ghost lb = be32_bytes(len);
        let ghost z = seq![0u8, 0u8, 0u8, 58u8];
        let ghost tc = seq![t, c, 0u8, 0u8];
        proof {
            lemma_word_sum_bound(src);
            lemma_word_sum_bound(dst);
            lemma_word_sum_bound(b@);
            lemma_word_sum4(lb[0], lb[1], lb[2], lb[3]);
            lemma_word_sum4(0u8, 0u8, 0u8, 58u8);
            lemma_word_sum4(t, c, 0u8, 0u8);
            assert(lb =~= seq![lb[0], lb[1], lb[2], lb[3]]);
            assert((len / 16777216) as u8 as u64 * 256 + ((len / 65536) % 256) as u8 as u64 == (len / 65536) as u64) by (bit_vector);
            assert(((len / 256) % 256) as u8 as u64 * 256 + (len % 256) as u8 as u64 == (len % 65536) as u64) by (bit_vector);
        }
        let mut sum: u64 = add_words(0, ip_header.source.as_slice());
        sum = add_words(sum, ip_header.destination.as_slice());
        sum = sum + ((len / 65536) as u64) + ((len % 65536) as u64) + 58 + (t as u64) * 256 + (c as u64);
        sum = add_words(sum, b.as_slice());
        sum = add_words(sum, payload);
        proof {
            let whole = src + dst + lb + z + tc + b@ + payload@;
            lemma_word_sum_concat(src + dst + lb + z + tc + b@, payload@);
            lemma_word_sum_concat(src + dst + lb + z + tc, b@);
            lemma_word_sum_concat(src + dst + lb + z, tc);
            lemma_word_sum_concat(src + dst + lb, z);
            lemma_word_sum_concat(src + dst, lb);
            lemma_word_sum_concat(src, dst);
            assert(sum == word_sum(whole));
        }
        Ok(finish_checksum(sum))
    }

    /// Creates a header with the correct checksum.
    pub fn to_header(self, ip_header: &Ipv6Header, payload: &[u8]) -> (r: Result<Icmpv6Header, ValueError>)
        ensures
            icmpv6_len_fits(payload@.len()) ==> r == Ok::<Icmpv6Header, ValueError>(Icmpv6Header {
                icmp_type: self,
                checksum: self.spec_checksum(*ip_header, payload@),
            }),
            !icmpv6_len_fits(payload@.len()) ==> r == Err::<Icmpv6Header, _>(ValueError::Ipv6PayloadLengthTooLarge(payload@.len() as usize)),
    {
        Icmpv6Header::with_checksum(self, ip_header, payload)
    }

    /// Serialized length of the header in octets.
    pub fn header_len(&self) -> (r: usize)
        ensures
            r == 8,
    {
        ICMPV6_HEADER_LEN
    }
}

fn u32_be_bytes(v: u32) -> (r: [u8; 4])
    ensures
        r@ == be32_bytes(v),
{
    let r = [(v / 16777216) as u8, ((v / 65536) % 256) as u8, ((v / 256) % 256) as u8, (v % 256) as u8];
    assert(r@ =~= be32_bytes(v));
    r
}

proof fn lemma_word_sum4(a: u8, b: u8, c: u8, d: u8)
    ensures
        word_sum(seq![a, b, c, d]) == (a as nat * 256 + b as nat) + (c as nat * 256 + d as nat),
{
    let s = seq![a, b, c, d];
    let t = s.subrange(2, 4);
    assert(t =~= seq![c, d]);
    assert(t.subrange(2, 2).len() == 0);
    reveal_with_fuel(word_sum, 3);
}

/// The statically sized data at the start of an ICMPv6 packet.
#[derive(Clone, Copy, Debug, PartialEq, Eq)]
pub struct Icmpv6Header {
    pub icmp_type: Icmp6Type,
    /// Checksum in the ICMPv6 header.
    pub checksum: u16,
}

impl Icmpv6Header {
    /// On-wire octets of the header.
    pub open spec fn spec_bytes(&self) -> Seq<u8> {
        seq![self.icmp_type.spec_type_value(), self.icmp_type.spec_code_value()] + be16_bytes(self.checksum)
            + self.icmp_type.spec_bytes5to8()
    }

    /// The header that the first 8 octets of `s` encode.
    pub open spec fn spec_from_bytes(s: Seq<u8>) -> Icmpv6Header
        recommends
            s.len() >= 8,
    {
        Icmpv6Header {
            icmp_type: Icmp6Type::spec_from_bytes(s[0], s[1], [s[4], s[5], s[6], s[7]]),
            checksum: be16(s[2], s[3]),
        }
    }

    /// Serialized length of the header in octets.
    pub fn header_len(&self) -> (r: usize)
        ensures
            r == 8,
    {
        ICMPV6_HEADER_LEN
    }

    /// A header of the given type with the checksum set to 0.
    pub fn new(icmp_type: Icmp6Type) -> (r: Icmpv6Header)
        ensures
            r == (Icmpv6Header { icmp_type, checksum: 0 }),
    {
        Icmpv6Header { icmp_type, checksum: 0 }
    }

    /// Creates a header with a valid checksum for `payload` after `ip_header`.
    pub fn with_checksum(icmp_type: Icmp6Type, ip_header: &Ipv6Header, payload: &[u8]) -> (r: Result<Icmpv6Header, ValueError>)
        ensures
            icmpv6_len_fits(payload@.len()) ==> r == Ok::<Icmpv6Header, ValueError>(Icmpv6Header {
                icmp_type,
                checksum: icmp_type.spec_checksum(*ip_header, payload@),
            }),
            !icmpv6_len_fits(payload@.len()) ==> r == Err::<Icmpv6Header, _>(ValueError::Ipv6PayloadLengthTooLarge(payload@.len() as usize)),
    {
        match icmp_type.calc_checksum(ip_header, payload) {
            Ok(checksum) => Ok(Icmpv6Header { icmp_type, checksum }),
            Err(e) => Err(e),
        }
    }

    /// Appends the on-wire octets of the header to `out`.
    pub fn write(&self, out: &mut Vec<u8>)
        ensures
            final(out)@ == old(out)@ + self.spec_bytes(),
    {
        let b = self.to_bytes();
        crate::bytes::push_all(out, b.as_slice());
    }

    /// Checks the checksum against `payload` after `ip_header`.
    pub fn is_checksum_valid(&self, ip_header: &Ipv6Header, payload: &[u8]) -> (r: Result<bool, ValueError>)
        ensures
            icmpv6_len_fits(payload@.len()) ==> r == Ok::<bool, ValueError>(
                self.checksum == self.icmp_type.spec_checksum(*ip_header, payload@),
            ),
            !icmpv6_len_fits(payload@.len()) ==> r == Err::<bool, _>(ValueError::Ipv6PayloadLengthTooLarge(payload@.len() as usize)),
    {
        match self.icmp_type.calc_checksum(ip_header, payload) {
            Ok(c) => Ok(self.checksum == c),
            Err(e) => Err(e),
        }
    }

    /// Recomputes the checksum for `payload` after `ip_header`.
    pub fn update_checksum(&mut self, ip_header: &Ipv6Header, payload: &[u8]) -> (r: Result<(), ValueError>)
        ensures
            icmpv6_len_fits(payload@.len()) ==> r is Ok && *final(self) == (Icmpv6Header {
                icmp_type: old(self).icmp_type,
                checksum: old(self).icmp_type.spec_checksum(*ip_header, payload@),
            }),
            !icmpv6_len_fits(payload@.len()) ==> r == Err::<(), _>(ValueError::Ipv6PayloadLengthTooLarge(payload@.len() as usize))
                && *final(self) == *old(self),
    {
        match self.icmp_type.calc_checksum(ip_header, payload) {
            Ok(c) => {
                self.checksum = c;
                Ok(())
            },
            Err(e) => Err(e),
        }
    }

    /// Decodes a header from the start of `s` and returns it with the octets after it.
    pub fn from_slice(s: &[u8]) -> (r: Result<(Icmpv6Header, &[u8]), ReadError>)
        ensures
            s@.len() < 8 ==> r == Err::<(Icmpv6Header, &[u8]), _>(ReadError::UnexpectedEndOfSlice(8)),
            s@.len() >= 8 ==> (r matches Ok((h, rest)) && h == Icmpv6Header::spec_from_bytes(s@)
                && rest@ == s@.subrange(8, s@.len() as int)),
    {
        let hs = Icmpv6HeaderSlice::from_slice(s);
        match hs {
            Ok(hs) => {
                let h = hs.to_header();
                Ok((h, &s[ICMPV6_HEADER_LEN..s.len()]))
            },
            Err(e) => Err(e),
        }
    }

    /// Returns the on-wire octets of the header.
    pub fn to_bytes(&self) -> (r: [u8; 8])
        ensures
            r@ == self.spec_bytes(),
    {
        let (t, c, b) = self.icmp_type.to_bytes();
        let r = [t, c, (self.checksum / 256) as u8, (self.checksum % 256) as u8, b[0], b[1], b[2], b[3]];
        assert(r@ =~= self.spec_bytes());
        r
    }
}

/// A slice holding the 8 octets of an ICMPv6 header; fields are decoded on access.
#[derive(Clone, Copy, Debug, PartialEq, Eq)]
pub struct Icmpv6HeaderSlice<'a> {
    slice: &'a [u8],
}

impl<'a> View for Icmpv6HeaderSlice<'a> {
    type V = Seq<u8>;

    closed spec fn view(&self) -> Seq<u8> {
        self.slice@
    }
}

impl<'a> Icmpv6HeaderSlice<'a> {
    #[verifier::type_invariant]
    spec fn inv(&self) -> bool {
        self.slice@.len() == 8
    }

    /// Checks that `s` holds at least 8 octets and views its first 8 octets.
    pub fn from_slice(s: &'a [u8]) -> (r: Result<Icmpv6HeaderSlice<'a>, ReadError>)
        ensures
            s@.len() < 8 ==> r == Err::<Icmpv6HeaderSlice<'a>, _>(ReadError::UnexpectedEndOfSlice(8)),
            s@.len() >= 8 ==> (r matches Ok(h) && h@ == s@.subrange(0, 8)),
    {
        if s.len() < ICMPV6_HEADER_LEN {
            return Err(ReadError::UnexpectedEndOfSlice(ICMPV6_HEADER_LEN));
        }
        Ok(Icmpv6HeaderSlice { slice: &s[0..ICMPV6_HEADER_LEN] })
    }

    /// Decodes all the fields.
    pub fn to_header(&self) -> (r: Icmpv6Header)
        ensures
            r == Icmpv6Header::spec_from_bytes(self@),
    {
        proof {
            use_type_invariant(self);
        }
        let b = self.bytes5to8();
        assert(b =~= [self@[4], self@[5], self@[6], self@[7]]);
        Icmpv6Header {
            icmp_type: Icmp6Type::from_bytes(self.slice[0], self.slice[1], b),
            checksum: self.checksum(),
        }
    }

    /// Returns the "type" value (first octet).
    pub fn type_value(&self) -> (r: u8)
        ensures
            r == self@[0],
    {
        proof {
            use_type_invariant(self);
        }
        self.slice[0]
    }

    /// Returns the "code" value (second octet).
    pub fn code_value(&self) -> (r: u8)
        ensures
            r == self@[1],
    {
        proof {
            use_type_invariant(self);
        }
        self.slice[1]
    }

    /// Returns the checksum (third and fourth octets, big endian).
    pub fn checksum(&self) -> (r: u16)
        ensures
            r == be16(self@[2], self@[3]),
    {
        proof {
            use_type_invariant(self);
        }
        read_be16(self.slice[2], self.slice[3])
    }

    /// Returns the 5th to 8th octets, whose meaning depends on the type.
    pub fn bytes5to8(&self) -> (r: [u8; 4])
        ensures
            r@ == self@.subrange(4, 8),
    {
        proof {
            use_type_invariant(self);
        }
        let r = [self.slice[4], self.slice[5], self.slice[6], self.slice[7]];
        assert(r@ =~= self@.subrange(4, 8));
        r
    }

    /// Returns the slice holding the header.
    pub fn slice(&self) -> (r: &'a [u8])
        ensures
            r@ == self@,
    {
        self.slice
    }
}

/// A header built by `with_checksum` for an IP header and payload passes
/// `is_checksum_valid` for the same IP header and payload.
pub proof fn lemma_with_checksum_is_valid(icmp_type: Icmp6Type, ip_header: Ipv6Header, payload: Seq<u8>)
    requires
        icmpv6_len_fits(payload.len()),
    ensures
        ({
            let h = Icmpv6Header { icmp_type, checksum: icmp_type.spec_checksum(ip_header, payload) };
            h.checksum == h.icmp_type.spec_checksum(ip_header, payload)
        }),
{
}

/// Flipping any single bit of the payload changes the checksum, so a header
/// whose checksum was valid for the payload is invalid for the altered one.
pub proof fn lemma_bit_flip_changes_checksum(
    icmp_type: Icmp6Type,
    ip_header: Ipv6Header,
    payload: Seq<u8>,
    i: int,
    bit: u8,
)
    requires
        icmpv6_len_fits(payload.len()),
        0 <= i < payload.len(),
        bit < 8,
    ensures
        icmp_type.spec_checksum(ip_header, payload.update(i, payload[i] ^ (1u8 << bit)))
            != icmp_type.spec_checksum(ip_header, payload),
{
    let x = payload[i];
    let v: u8 = x ^ (1u8 << bit);
    let p2 = payload.update(i, v);
    let prefix = ip_header.source@ + ip_header.destination@ + be32_bytes((payload.len() + 8) as u32)
        + seq![0u8, 0u8, 0u8, 58u8] + seq![icmp_type.spec_type_value(), icmp_type.spec_code_value(), 0u8, 0u8]
        + icmp_type.spec_bytes5to8();
    assert(prefix.len() == 48);
    assert(p2.len() == payload.len());
    lemma_word_sum_concat(prefix, payload);
    lemma_word_sum_concat(prefix, p2);
    crate::checksum::lemma_word_sum_update(payload, i, v);
    let a = seq![0u8, 0u8, 0u8, 58u8];
    lemma_word_sum4(0u8, 0u8, 0u8, 58u8);
    let pre4 = ip_header.source@ + ip_header.destination@ + be32_bytes((payload.len() + 8) as u32);
    assert(pre4.len() == 36);
    lemma_word_sum_concat(pre4 + a, seq![icmp_type.spec_type_value(), icmp_type.spec_code_value(), 0u8, 0u8] + icmp_type.spec_bytes5to8());
    assert(prefix =~= (pre4 + a) + (seq![icmp_type.spec_type_value(), icmp_type.spec_code_value(), 0u8, 0u8] + icmp_type.spec_bytes5to8()));
    lemma_word_sum_concat(pre4, a);
    assert(word_sum(prefix) >= 58);
    let d: int = if (v as int) > (x as int) { (v as int) - (x as int) } else { (x as int) - (v as int) };
    assert((v as int) - (x as int) == (1u8 << bit) as int || (x as int) - (v as int) == (1u8 << bit) as int) by {
        assert((x ^ (1u8 << bit)) as int - x as int == (1u8 << bit) as int || x as int - (x ^ (1u8 << bit)) as int == (1u8 << bit) as int) by (bit_vector)
            requires bit < 8u8;
    }
    assert(1 <= (1u8 << bit) && (1u8 << bit) <= 128) by (bit_vector) requires bit < 8u8;
    let s1 = word_sum(prefix + payload);
    let s2 = word_sum(prefix + p2);
    let w = crate::checksum::octet_weight(i);
    assert(s1 - s2 == (x as int - v as int) * w);
    assert(0 < d * w < 65535) by (nonlinear_arith)
        requires 1 <= d <= 128, w == 1 || w == 256;
    assert(s1 % 65535 != s2 % 65535) by (nonlinear_arith)
        requires s1 - s2 == d * w || s2 - s1 == d * w, 0 < d * w < 65535, s1 >= 0, s2 >= 0;
    crate::checksum::lemma_fold16_mod(s1);
    crate::checksum::lemma_fold16_mod(s2);
    assert(prefix + payload =~= ip_header.source@ + ip_header.destination@ + be32_bytes((payload.len() + 8) as u32)
        + seq![0u8, 0u8, 0u8, 58u8] + seq![icmp_type.spec_type_value(), icmp_type.spec_code_value(), 0u8, 0u8]
        + icmp_type.spec_bytes5to8() + payload);
    assert(prefix + p2 =~= ip_header.source@ + ip_header.destination@ + be32_bytes((p2.len() + 8) as u32)
        + seq![0u8, 0u8, 0u8, 58u8] + seq![icmp_type.spec_type_value(), icmp_type.spec_code_value(), 0u8, 0u8]
        + icmp_type.spec_bytes5to8() + p2);
}

/// An ICMPv6 header of a type this library does not decode is kept raw and
/// encodes back to exactly the octets it was decoded from.
pub proof fn lemma_raw_round_trip(s: Seq<u8>)
    requires
        s.len() == 8,
        !is_known_icmpv6_type(s[0]),
    ensures
        Icmpv6Header::spec_from_bytes(s).icmp_type == (Icmp6Type::Raw {
            icmp_type: s[0],
            icmp_code: s[1],
            bytes5to8: [s[4], s[5], s[6], s[7]],
        }),
        Icmpv6Header::spec_from_bytes(s).spec_bytes() == s,
{
    crate::bytes::lemma_be16_bytes_of(s[2], s[3]);
    assert(Icmpv6Header::spec_from_bytes(s).spec_bytes() =~= s);
}

} // verus!
