use vstd::prelude::*;
use crate::bytes::{be16, be16_bytes, push_all, push_be16, read_be16};
use crate::err::{Ipv6HeaderError, LenError, LenSource, Layer, ValueTooBigError, ValueType};

verus! {

/// IPv6 fixed header (40 octets).
#[derive(Clone, Copy, Debug, PartialEq, Eq)]
pub struct Ipv6Header {
    pub traffic_class: u8,
    /// Flow label (20 bits).
    pub flow_label: u32,
    /// Length of the extension headers and the payload after the fixed header.
    pub payload_length: u16,
    /// Protocol number of the first header after the fixed header.
    pub next_header: u8,
    pub hop_limit: u8,
    pub source: [u8; 16],
    pub destination: [u8; 16],
}

/// Errors when decoding an IPv6 fixed header from a slice.
#[derive(Clone, Copy, Debug, PartialEq, Eq, Structural)]
pub enum Ipv6HeaderSliceError {
    Len(LenError),
    Content(Ipv6HeaderError),
}

/// Length of the IPv6 fixed header in octets.
pub const IPV6_HEADER_LEN: usize = 40;

impl Ipv6Header {
    /// The fields fit their on-wire widths.
    pub open spec fn wf(&self) -> bool {
        self.flow_label < 0x100000
    }

    /// On-wire octets of the header.
    pub open spec fn spec_bytes(&self) -> Seq<u8> {
        seq![
            (96 + self.traffic_class / 16) as u8,
            ((self.traffic_class % 16) * 16 + (self.flow_label / 65536) % 16) as u8,
            ((self.flow_label / 256) % 256) as u8,
            (self.flow_label % 256) as u8,
        ] + be16_bytes(self.payload_length) + seq![self.next_header, self.hop_limit]
            + self.source@ + self.destination@
    }

    /// `self` holds the fields that the first 40 octets of `s` encode.
    pub open spec fn decodes(&self, s: Seq<u8>) -> bool {
        &&& s.len() >= 40
        &&& self.traffic_class == ((s[0] % 16) * 16 + s[1] / 16) as u8
        &&& self.flow_label == ((s[1] % 16) as int * 65536 + s[2] as int * 256 + s[3] as int) as u32
        &&& self.payload_length == be16(s[4], s[5])
        &&& self.next_header == s[6]
        &&& self.hop_limit == s[7]
        &&& self.source@ == s.subrange(8, 24)
        &&& self.destination@ == s.subrange(24, 40)
    }

    /// True if the fields fit their on-wire widths.
    pub fn is_valid(&self) -> (r: bool)
        ensures
            r == self.wf(),
    {
        self.flow_label < 0x100000
    }

    /// Serialized length of the header.
    pub fn header_len(&self) -> (r: usize)
        ensures
            r == 40,
    {
        IPV6_HEADER_LEN
    }

    /// Decodes the fixed header from the first 40 octets of `s` without
    /// checking the version nibble.
    pub fn decode_unchecked(s: &[u8]) -> (r: Ipv6Header)
        requires
            s@.len() >= 40,
        ensures
            r.decodes(s@),
            r.wf(),
    {
        let source: [u8; 16] = [s[8], s[9], s[10], s[11], s[12], s[13], s[14], s[15], s[16], s[17], s[18], s[19], s[20], s[21], s[22], s[23]];
        let destination: [u8; 16] = [s[24], s[25], s[26], s[27], s[28], s[29], s[30], s[31], s[32], s[33], s[34], s[35], s[36], s[37], s[38], s[39]];
        let r = Ipv6Header {
            traffic_class: (s[0] % 16) * 16 + s[1] / 16,
            flow_label: ((s[1] % 16) as u32) * 65536 + (s[2] as u32) * 256 + (s[3] as u32),
            payload_length: read_be16(s[4], s[5]),
            next_header: s[6],
            hop_limit: s[7],
            source,
            destination,
        };
        assert(r.source@ =~= s@.subrange(8, 24));
        assert(r.destination@ =~= s@.subrange(24, 40));
        r
    }

    /// Decodes an IPv6 fixed header from the start of `s` and returns it with
    /// the octets that follow it.
    pub fn from_slice(s: &[u8]) -> (r: Result<(Ipv6Header, &[u8]), Ipv6HeaderSliceError>)
        ensures
            s@.len() < 40 <==> r == Err::<(Ipv6Header, &[u8]), _>(Ipv6HeaderSliceError::Len(
                LenError {
                    required_len: 40,
                    len: s@.len() as usize,
                    len_source: LenSource::Slice,
                    layer: Layer::Ipv6Header,
                    layer_start_offset: 0,
                },
            )),
            s@.len() >= 40 && s@[0] / 16 != 6 <==> r == Err::<(Ipv6Header, &[u8]), _>(
                Ipv6HeaderSliceError::Content(
                    Ipv6HeaderError::UnexpectedVersion { version_number: s@[0] / 16 },
                ),
            ),
            r is Ok <==> s@.len() >= 40 && s@[0] / 16 == 6,
            r matches Ok((h, rest)) ==> h.decodes(s@) && h.wf() && rest@ == s@.subrange(40, s@.len() as int),
    {
        if s.len() < IPV6_HEADER_LEN {
            return Err(
                Ipv6HeaderSliceError::Len(
                    LenError {
                        required_len: IPV6_HEADER_LEN,
                        len: s.len(),
                        len_source: LenSource::Slice,
                        layer: Layer::Ipv6Header,
                        layer_start_offset: 0,
                    },
                ),
            );
        }
        let version_number = s[0] / 16;
        if version_number != 6 {
            return Err(
                Ipv6HeaderSliceError::Content(Ipv6HeaderError::UnexpectedVersion { version_number }),
            );
        }
        let h = Ipv6Header::decode_unchecked(s);
        Ok((h, &s[IPV6_HEADER_LEN..s.len()]))
    }

    /// Appends the on-wire octets of the header to `out`.
    pub fn write(&self, out: &mut Vec<u8>)
        requires
            self.wf(),
        ensures
            final(out)@ == old(out)@ + self.spec_bytes(),
    {
        out.push(96 + self.traffic_class / 16);
        out.push((self.traffic_class % 16) * 16 + ((self.flow_label / 65536) % 16) as u8);
        out.push(((self.flow_label / 256) % 256) as u8);
        out.push((self.flow_label % 256) as u8);
        push_be16(out, self.payload_length);
        out.push(self.next_header);
        out.push(self.hop_limit);
        push_all(out, self.source.as_slice());
        push_all(out, self.destination.as_slice());
        assert(out@ =~= old(out)@ + self.spec_bytes());
    }

    /// Sets the payload length field; fails if `len` does not fit in 16 bits.
    pub fn set_payload_length(&mut self, len: usize) -> (r: Result<(), ValueTooBigError>)
        ensures
            len <= 0xffff ==> r is Ok && *final(self) == (Ipv6Header { payload_length: len as u16, ..*old(self) }),
            len > 0xffff ==> r == Err::<(), _>(ValueTooBigError {
                actual: len,
                max_allowed: 0xffff,
                value_type: ValueType::Ipv6PayloadLength,
            }) && *final(self) == *old(self),
    {
        if len > 0xffff {
            Err(ValueTooBigError { actual: len, max_allowed: 0xffff, value_type: ValueType::Ipv6PayloadLength })
        } else {
            self.payload_length = len as u16;
            Ok(())
        }
    }
}

/// Decoding the octets that `write` produces gives back the header.
pub proof fn lemma_ipv6_header_round_trip(h: Ipv6Header, r: Ipv6Header, rest: Seq<u8>)
    requires
        h.wf(),
        r.decodes(h.spec_bytes() + rest),
    ensures
        r == h,
        (h.spec_bytes() + rest)[0] / 16 == 6,
        h.spec_bytes().len() == 40,
{
    let s = h.spec_bytes() + rest;
    crate::bytes::lemma_be16_round_trip(h.payload_length);
    assert(s.subrange(8, 24) =~= h.source@);
    assert(s.subrange(24, 40) =~= h.destination@);
    assert(r.source =~= h.source);
    assert(r.destination =~= h.destination);
    let tc = h.traffic_class;
    let fl = h.flow_label;
    assert(((((96 + tc / 16) as u8) % 16) * 16 + (((tc % 16) * 16 + (fl / 65536) % 16) as u8) / 16) as u8 == tc) by (bit_vector)
        requires fl < 0x100000u32;
    assert((((((tc % 16) * 16 + (fl / 65536) % 16) as u8) % 16) as u32 * 65536 + (((fl / 256) % 256) as u8) as u32 * 256 + ((fl % 256) as u8) as u32) == fl) by (bit_vector)
        requires fl < 0x100000u32;
}

} // verus!
