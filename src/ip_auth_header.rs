use vstd::prelude::*;
use crate::bytes::{be32, be32_bytes, push_all, push_be32, read_be32};
use crate::err::{IpAuthHeaderError, IpAuthHeaderSliceError, Layer, LenError, LenSource, ValueError};

verus! {

/// Largest ICV length an authentication header can hold (the length field is one octet).
pub const MAX_ICV_LEN: usize = 1016;

/// IPsec Authentication Header (RFC 4302).
#[derive(Clone, Debug, PartialEq, Eq)]
pub struct IpAuthHeader {
    /// Protocol number of the header that follows.
    pub next_header: u8,
    /// Security Parameters Index.
    pub spi: u32,
    /// Anti-replay sequence number.
    pub sequence_number: u32,
    /// Integrity Check Value (a multiple of 4 octets).
    pub raw_icv: Vec<u8>,
}

/// Octet length of an authentication header whose length field is `len_field`.
pub open spec fn auth_len(len_field: u8) -> nat {
    (len_field as nat + 2) * 4
}

impl IpAuthHeader {
    /// The ICV length is representable in the length field.
    pub open spec fn wf(&self) -> bool {
        self.raw_icv@.len() % 4 == 0 && self.raw_icv@.len() <= 1016
    }

    pub open spec fn spec_header_len(&self) -> nat {
        12 + self.raw_icv@.len()
    }

    /// On-wire octets of the header.
    pub open spec fn spec_bytes(&self) -> Seq<u8> {
        seq![self.next_header, ((12 + self.raw_icv@.len()) / 4 - 2) as u8, 0u8, 0u8] + be32_bytes(self.spi)
            + be32_bytes(self.sequence_number) + self.raw_icv@
    }

    /// `self` holds the fields of the header at the start of `s`.
    pub open spec fn decodes(&self, s: Seq<u8>) -> bool {
        &&& s.len() >= 2
        &&& s[1] != 0
        &&& s.len() >= auth_len(s[1])
        &&& self.next_header == s[0]
        &&& self.spi == be32(s[4], s[5], s[6], s[7])
        &&& self.sequence_number == be32(s[8], s[9], s[10], s[11])
        &&& self.raw_icv@ == s.subrange(12, auth_len(s[1]) as int)
    }

    /// Equal field values (the ICV compared by content).
    pub open spec fn equiv(&self, o: &IpAuthHeader) -> bool {
        &&& self.next_header == o.next_header
        &&& self.spi == o.spi
        &&& self.sequence_number == o.sequence_number
        &&& self.raw_icv@ == o.raw_icv@
    }

    /// The error `from_slice` reports for `s`, if any.
    pub open spec fn slice_error(s: Seq<u8>) -> Option<IpAuthHeaderSliceError> {
        if s.len() < 2 {
            Some(IpAuthHeaderSliceError::Len(LenError {
                required_len: 2,
                len: s.len() as usize,
                len_source: LenSource::Slice,
                layer: Layer::IpAuthHeader,
                layer_start_offset: 0,
            }))
        } else if s[1] == 0 {
            Some(IpAuthHeaderSliceError::Content(IpAuthHeaderError::ZeroPayloadLen))
        } else if s.len() < auth_len(s[1]) {
            Some(IpAuthHeaderSliceError::Len(LenError {
                required_len: auth_len(s[1]) as usize,
                len: s.len() as usize,
                len_source: LenSource::Slice,
                layer: Layer::IpAuthHeader,
                layer_start_offset: 0,
            }))
        } else {
            None
        }
    }

    /// Creates a header; fails if the ICV length is not a multiple of 4 or
    /// longer than 1016 octets.
    pub fn new(next_header: u8, spi: u32, sequence_number: u32, raw_icv: &[u8]) -> (r: Result<IpAuthHeader, ValueError>)
        ensures
            (raw_icv@.len() % 4 == 0 && raw_icv@.len() <= 1016) ==> (r matches Ok(h) && h.wf()
                && h.next_header == next_header && h.spi == spi && h.sequence_number == sequence_number
                && h.raw_icv@ == raw_icv@),
            !(raw_icv@.len() % 4 == 0 && raw_icv@.len() <= 1016) ==> r == Err::<IpAuthHeader, _>(
                ValueError::IpAuthIcvLen(raw_icv@.len() as usize),
            ),
    {
        if raw_icv.len() % 4 != 0 || raw_icv.len() > MAX_ICV_LEN {
            return Err(ValueError::IpAuthIcvLen(raw_icv.len()));
        }
        Ok(IpAuthHeader { next_header, spi, sequence_number, raw_icv: vstd::slice::slice_to_vec(raw_icv) })
    }

    /// True if the ICV length is representable in the length field.
    pub fn is_valid(&self) -> (r: bool)
        ensures
            r == self.wf(),
    {
        self.raw_icv.len() % 4 == 0 && self.raw_icv.len() <= MAX_ICV_LEN
    }

    /// Serialized length of the header in octets.
    pub fn header_len(&self) -> (r: usize)
        requires
            self.wf(),
        ensures
            r == self.spec_header_len(),
    {
        12 + self.raw_icv.len()
    }

    /// Decodes an authentication header from the start of `s` and returns it
    /// with the octets after it.
    pub fn from_slice(s: &[u8]) -> (r: Result<(IpAuthHeader, &[u8]), IpAuthHeaderSliceError>)
        ensures
            IpAuthHeader::slice_error(s@) is Some ==> r == Err::<(IpAuthHeader, &[u8]), _>(
                IpAuthHeader::slice_error(s@).unwrap(),
            ),
            IpAuthHeader::slice_error(s@) is None ==> (r matches Ok((h, rest)) && h.decodes(s@) && h.wf()
                && h.spec_header_len() == auth_len(s@[1])
                && rest@ == s@.subrange(auth_len(s@[1]) as int, s@.len() as int)),
    {
        if s.len() < 2 {
            return Err(
                IpAuthHeaderSliceError::Len(
                    LenError {
                        required_len: 2,
                        len: s.len(),
                        len_source: LenSource::Slice,
                        layer: Layer::IpAuthHeader,
                        layer_start_offset: 0,
                    },
                ),
            );
        }
        if s[1] == 0 {
            return Err(IpAuthHeaderSliceError::Content(IpAuthHeaderError::ZeroPayloadLen));
        }
        let len: usize = ((s[1] as usize) + 2) * 4;
        if s.len() < len {
            return Err(
                IpAuthHeaderSliceError::Len(
                    LenError {
                        required_len: len,
                        len: s.len(),
                        len_source: LenSource::Slice,
                        layer: Layer::IpAuthHeader,
                        layer_start_offset: 0,
                    },
                ),
            );
        }
        let h = IpAuthHeader::decode_unchecked(s);
        Ok((h, &s[len..s.len()]))
    }

    /// Decodes the header at the start of `s` once its length field and
    /// length have been checked.
    pub fn decode_unchecked(s: &[u8]) -> (r: IpAuthHeader)
        requires
            IpAuthHeader::slice_error(s@) is None,
        ensures
            r.decodes(s@),
            r.wf(),
            r.spec_header_len() == auth_len(s@[1]),
    {
        let len: usize = ((s[1] as usize) + 2) * 4;
        IpAuthHeader {
            next_header: s[0],
            spi: read_be32(s[4], s[5], s[6], s[7]),
            sequence_number: read_be32(s[8], s[9], s[10], s[11]),
            raw_icv: vstd::slice::slice_to_vec(&s[12..len]),
        }
    }

    /// Appends the on-wire octets of the header to `out`.
    pub fn write(&self, out: &mut Vec<u8>)
        requires
            self.wf(),
        ensures
            final(out)@ == old(out)@ + self.spec_bytes(),
    {
        out.push(self.next_header);
        out.push(((12 + self.raw_icv.len()) / 4 - 2) as u8);
        out.push(0);
        out.push(0);
        push_be32(out, self.spi);
        push_be32(out, self.sequence_number);
        push_all(out, self.raw_icv.as_slice());
        assert(out@ =~= old(out)@ + self.spec_bytes());
    }
}

/// Decoding the octets that `write` produces gives back the header.
pub proof fn lemma_auth_round_trip(h: IpAuthHeader, rest: Seq<u8>)
    requires
        h.wf(),
    ensures
        IpAuthHeader::slice_error(h.spec_bytes() + rest) is None,
        auth_len((h.spec_bytes() + rest)[1]) == h.spec_header_len(),
        h.spec_bytes().len() == h.spec_header_len(),
        forall|r: IpAuthHeader| #[trigger] r.decodes(h.spec_bytes() + rest) ==> r.equiv(&h),
{
    let s = h.spec_bytes() + rest;
    crate::bytes::lemma_be32_round_trip(h.spi);
    crate::bytes::lemma_be32_round_trip(h.sequence_number);
    assert(s.subrange(12, 12 + h.raw_icv@.len() as int) =~= h.raw_icv@);
}

} // verus!
