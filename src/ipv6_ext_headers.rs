use vstd::prelude::*;
use crate::bytes::{be16, be16_bytes, be32, be32_bytes, push_all, push_be16, push_be32, read_be16, read_be32};

verus! {

/// Octet length of a generic extension header whose length field is `len_field`.
pub open spec fn raw_ext_len(len_field: u8) -> nat {
    (len_field as nat + 1) * 8
}

/// A generic IPv6 extension header (hop-by-hop options, routing, destination
/// options): next header, length field and the options that follow.
#[derive(Clone, Debug, PartialEq, Eq)]
pub struct Ipv6RawExtHeader {
    /// Protocol number of the header that follows.
    pub next_header: u8,
    /// The octets after the next header and length fields (6 + a multiple of 8).
    pub payload: Vec<u8>,
}

impl Ipv6RawExtHeader {
    /// The payload length is representable in the length field.
    pub open spec fn wf(&self) -> bool {
        &&& self.payload@.len() >= 6
        &&& (self.payload@.len() - 6) % 8 == 0
        &&& self.payload@.len() <= 2046
    }

    pub open spec fn spec_header_len(&self) -> nat {
        2 + self.payload@.len()
    }

    pub open spec fn spec_bytes(&self) -> Seq<u8> {
        seq![self.next_header, ((2 + self.payload@.len()) / 8 - 1) as u8] + self.payload@
    }

    /// `self` holds the header at the start of `s`.
    pub open spec fn decodes(&self, s: Seq<u8>) -> bool {
        &&& s.len() >= 2
        &&& s.len() >= raw_ext_len(s[1])
        &&& self.next_header == s[0]
        &&& self.payload@ == s.subrange(2, raw_ext_len(s[1]) as int)
    }

    pub open spec fn equiv(&self, o: &Ipv6RawExtHeader) -> bool {
        self.next_header == o.next_header && self.payload@ == o.payload@
    }

    /// Decodes the header at the start of `s` once its length has been checked.
    pub fn decode_unchecked(s: &[u8]) -> (r: Ipv6RawExtHeader)
        requires
            s@.len() >= 2,
            s@.len() >= raw_ext_len(s@[1]),
        ensures
            r.decodes(s@),
            r.wf(),
            r.spec_header_len() == raw_ext_len(s@[1]),
    {
        let len: usize = ((s[1] as usize) + 1) * 8;
        Ipv6RawExtHeader { next_header: s[0], payload: vstd::slice::slice_to_vec(&s[2..len]) }
    }

    /// True if the payload length is representable in the length field.
    pub fn is_valid(&self) -> (r: bool)
        ensures
            r == self.wf(),
    {
        self.payload.len() >= 6 && (self.payload.len() - 6) % 8 == 0 && self.payload.len() <= 2046
    }

    /// Serialized length of the header in octets.
    pub fn header_len(&self) -> (r: usize)
        requires
            self.wf(),
        ensures
            r == self.spec_header_len(),
    {
        2 + self.payload.len()
    }

    /// Appends the on-wire octets of the header to `out`.
    pub fn write(&self, out: &mut Vec<u8>)
        requires
            self.wf(),
        ensures
            final(out)@ == old(out)@ + self.spec_bytes(),
    {
        out.push(self.next_header);
        out.push(((2 + self.payload.len()) / 8 - 1) as u8);
        push_all(out, self.payload.as_slice());
        assert(out@ =~= old(out)@ + self.spec_bytes());
    }
}

/// Decoding the octets that `write` produces gives back the header.
pub proof fn lemma_raw_ext_round_trip(h: Ipv6RawExtHeader, rest: Seq<u8>)
    requires
        h.wf(),
    ensures
        h.spec_bytes().len() == h.spec_header_len(),
        (h.spec_bytes() + rest).len() >= 2,
        raw_ext_len((h.spec_bytes() + rest)[1]) == h.spec_header_len(),
        (h.spec_bytes() + rest)[0] == h.next_header,
        forall|r: Ipv6RawExtHeader| #[trigger] r.decodes(h.spec_bytes() + rest) ==> r.equiv(&h),
{
    let s = h.spec_bytes() + rest;
    assert(s.subrange(2, h.spec_header_len() as int) =~= h.payload@);
}

/// IPv6 fragment header (8 octets).
#[derive(Clone, Copy, Debug, PartialEq, Eq, Structural)]
pub struct Ipv6FragmentHeader {
    /// Protocol number of the header that follows.
    pub next_header: u8,
    /// Offset of the fragment in 8 octet units (13 bits).
    pub fragment_offset: u16,
    /// True if more fragments follow.
    pub more_fragments: bool,
    pub identification: u32,
}

impl Ipv6FragmentHeader {
    pub open spec fn wf(&self) -> bool {
        self.fragment_offset < 8192
    }

    /// The 16 bit word holding the offset and the M flag.
    pub open spec fn offset_word(&self) -> u16 {
        (self.fragment_offset as int * 8 + (if self.more_fragments { 1int } else { 0 })) as u16
    }

    pub open spec fn spec_bytes(&self) -> Seq<u8> {
        seq![self.next_header, 0u8] + be16_bytes(self.offset_word()) + be32_bytes(self.identification)
    }

    /// `self` holds the header at the start of `s`.
    pub open spec fn decodes(&self, s: Seq<u8>) -> bool {
        &&& s.len() >= 8
        &&& self.next_header == s[0]
        &&& self.fragment_offset == be16(s[2], s[3]) / 8
        &&& self.more_fragments == (be16(s[2], s[3]) % 2 == 1)
        &&& self.identification == be32(s[4], s[5], s[6], s[7])
    }

    pub open spec fn spec_is_fragmenting_payload(&self) -> bool {
        self.more_fragments || self.fragment_offset != 0
    }

    /// Decodes the header at the start of `s` once its length has been checked.
    pub fn decode_unchecked(s: &[u8]) -> (r: Ipv6FragmentHeader)
        requires
            s@.len() >= 8,
        ensures
            r.decodes(s@),
            r.wf(),
    {
        let w = read_be16(s[2], s[3]);
        Ipv6FragmentHeader {
            next_header: s[0],
            fragment_offset: w / 8,
            more_fragments: w % 2 == 1,
            identification: read_be32(s[4], s[5], s[6], s[7]),
        }
    }

    /// True if the offset fits its 13 bits.
    pub fn is_valid(&self) -> (r: bool)
        ensures
            r == self.wf(),
    {
        self.fragment_offset < 8192
    }

    /// Serialized length of the header in octets.
    pub fn header_len(&self) -> (r: usize)
        ensures
            r == 8,
    {
        8
    }

    /// True if the M flag is set or the offset is not zero.
    pub fn is_fragmenting_payload(&self) -> (r: bool)
        ensures
            r == self.spec_is_fragmenting_payload(),
    {
        self.more_fragments || self.fragment_offset != 0
    }

    /// Appends the on-wire octets of the header to `out`.
    pub fn write(&self, out: &mut Vec<u8>)
        requires
            self.wf(),
        ensures
            final(out)@ == old(out)@ + self.spec_bytes(),
    {
        out.push(self.next_header);
        out.push(0);
        push_be16(out, self.fragment_offset * 8 + (if self.more_fragments { 1u16 } else { 0 }));
        push_be32(out, self.identification);
        assert(out@ =~= old(out)@ + self.spec_bytes());
    }
}

/// Decoding the octets that `write` produces gives back the header.
pub proof fn lemma_fragment_round_trip(h: Ipv6FragmentHeader, rest: Seq<u8>)
    requires
        h.wf(),
    ensures
        h.spec_bytes().len() == 8,
        (h.spec_bytes() + rest)[0] == h.next_header,
        forall|r: Ipv6FragmentHeader| #[trigger] r.decodes(h.spec_bytes() + rest) ==> r == h,
{
    crate::bytes::lemma_be16_round_trip(h.offset_word());
    crate::bytes::lemma_be32_round_trip(h.identification);
}

} // verus!
