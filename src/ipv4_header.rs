use vstd::prelude::*;
use crate::bytes::{be16, be16_bytes, push_all, push_be16, read_be16};
use crate::checksum::{add_words, finish_checksum, internet_checksum, lemma_word_sum_bound};
use crate::err::{Ipv4HeaderError, Layer, LenError, LenSource, ValueTooBigError, ValueType};

verus! {

/// Smallest length of an IPv4 header (without options) in octets.
pub const IPV4_MIN_LEN: usize = 20;

/// Largest length of an IPv4 header (with 40 octets of options) in octets.
pub const IPV4_MAX_LEN: usize = 60;

/// IPv4 header (RFC 791) with its options.
#[derive(Clone, Debug, PartialEq, Eq)]
pub struct Ipv4Header {
    /// Differentiated services code point (6 bits).
    pub dscp: u8,
    /// Explicit congestion notification (2 bits).
    pub ecn: u8,
    /// Length of the header, its extensions and the payload.
    pub total_len: u16,
    pub identification: u16,
    pub dont_fragment: bool,
    pub more_fragments: bool,
    /// Fragment offset in 8 octet units (13 bits).
    pub fragment_offset: u16,
    pub time_to_live: u8,
    /// Protocol number of the header that follows.
    pub protocol: u8,
    pub header_checksum: u16,
    pub source: [u8; 4],
    pub destination: [u8; 4],
    /// Options (a multiple of 4 octets, at most 40).
    pub options: Vec<u8>,
}

/// Errors when decoding an IPv4 header from a slice.
#[derive(Clone, Copy, Debug, PartialEq, Eq, Structural)]
pub enum Ipv4HeaderSliceError {
    Len(LenError),
    Content(Ipv4HeaderError),
}

/// The 16 bit word holding the flags and the fragment offset.
pub open spec fn flags_word(dont_fragment: bool, more_fragments: bool, fragment_offset: u16) -> u16 {
    ((if dont_fragment { 0x4000int } else { 0 }) + (if more_fragments { 0x2000int } else { 0 })
        + fragment_offset as int) as u16
}

impl Ipv4Header {
    /// The fields fit their on-wire widths.
    pub open spec fn wf(&self) -> bool {
        &&& self.dscp < 64
        &&& self.ecn < 4
        &&& self.fragment_offset < 8192
        &&& self.options@.len() % 4 == 0
        &&& self.options@.len() <= 40
    }

    pub open spec fn spec_header_len(&self) -> nat {
        20 + self.options@.len()
    }

    /// On-wire octets of the header with `checksum` in the checksum field.
    pub open spec fn spec_bytes_with(&self, checksum: u16) -> Seq<u8> {
        seq![(64 + self.spec_header_len() / 4) as u8, (self.dscp * 4 + self.ecn) as u8]
            + be16_bytes(self.total_len) + be16_bytes(self.identification)
            + be16_bytes(flags_word(self.dont_fragment, self.more_fragments, self.fragment_offset))
            + seq![self.time_to_live, self.protocol] + be16_bytes(checksum) + self.source@
            + self.destination@ + self.options@
    }

    /// The header checksum: the Internet checksum over the header with a zero checksum field.
    pub open spec fn spec_checksum(&self) -> u16 {
        internet_checksum(self.spec_bytes_with(0))
    }

    /// On-wire octets as `write` emits them, with a freshly computed checksum.
    pub open spec fn spec_bytes(&self) -> Seq<u8> {
        self.spec_bytes_with(self.spec_checksum())
    }

    pub open spec fn spec_is_fragmenting_payload(&self) -> bool {
        self.more_fragments || self.fragment_offset != 0
    }

    /// `self` holds the fields of the header at the start of `s`.
    pub open spec fn decodes(&self, s: Seq<u8>) -> bool {
        &&& s.len() >= 20
        &&& s[0] % 16 >= 5
        &&& s.len() >= (s[0] % 16) * 4
        &&& self.options@ == s.subrange(20, (s[0] % 16) * 4)
        &&& self.dscp == s[1] / 4
        &&& self.ecn == s[1] % 4
        &&& self.total_len == be16(s[2], s[3])
        &&& self.identification == be16(s[4], s[5])
        &&& self.dont_fragment == ((s[6] / 64) % 2 == 1)
        &&& self.more_fragments == ((s[6] / 32) % 2 == 1)
        &&& self.fragment_offset == be16(s[6], s[7]) % 8192
        &&& self.time_to_live == s[8]
        &&& self.protocol == s[9]
        &&& self.header_checksum == be16(s[10], s[11])
        &&& self.source@ == s.subrange(12, 16)
        &&& self.destination@ == s.subrange(16, 20)
    }

    /// Equal field values (the options compared by content).
    pub open spec fn equiv(&self, o: &Ipv4Header) -> bool {
        &&& self.dscp == o.dscp
        &&& self.ecn == o.ecn
        &&& self.total_len == o.total_len
        &&& self.identification == o.identification
        &&& self.dont_fragment == o.dont_fragment
        &&& self.more_fragments == o.more_fragments
        &&& self.fragment_offset == o.fragment_offset
        &&& self.time_to_live == o.time_to_live
        &&& self.protocol == o.protocol
        &&& self.header_checksum == o.header_checksum
        &&& self.source == o.source
        &&& self.destination == o.destination
        &&& self.options@ == o.options@
    }

    /// True if the fields fit their on-wire widths.
    pub fn is_valid(&self) -> (r: bool)
        ensures
            r == self.wf(),
    {
        self.dscp < 64 && self.ecn < 4 && self.fragment_offset < 8192 && self.options.len() % 4 == 0
            && self.options.len() <= 40
    }

    /// Serialized length of the header in octets.
    pub fn header_len(&self) -> (r: usize)
        requires
            self.wf(),
        ensures
            r == self.spec_header_len(),
    {
        IPV4_MIN_LEN + self.options.len()
    }

    /// True if the MF flag is set or the fragment offset is not zero.
    pub fn is_fragmenting_payload(&self) -> (r: bool)
        ensures
            r == self.spec_is_fragmenting_payload(),
    {
        self.more_fragments || self.fragment_offset != 0
    }

    /// Decodes the header at the start of `s` once its length has been checked.
    pub fn decode_unchecked(s: &[u8]) -> (r: Ipv4Header)
        requires
            s@.len() >= 20,
            s@[0] % 16 >= 5,
            s@.len() >= (s@[0] % 16) * 4,
        ensures
            r.decodes(s@),
            r.wf(),
            r.spec_header_len() == (s@[0] % 16) * 4,
    {
        let hl: usize = ((s[0] % 16) as usize) * 4;
        let flags = read_be16(s[6], s[7]);
        let r = Ipv4Header {
            dscp: s[1] / 4,
            ecn: s[1] % 4,
            total_len: read_be16(s[2], s[3]),
            identification: read_be16(s[4], s[5]),
            dont_fragment: (s[6] / 64) % 2 == 1,
            more_fragments: (s[6] / 32) % 2 == 1,
            fragment_offset: flags % 8192,
            time_to_live: s[8],
            protocol: s[9],
            header_checksum: read_be16(s[10], s[11]),
            source: [s[12], s[13], s[14], s[15]],
            destination: [s[16], s[17], s[18], s[19]],
            options: vstd::slice::slice_to_vec(&s[20..hl]),
        };
        assert(r.source@ =~= s@.subrange(12, 16));
        assert(r.destination@ =~= s@.subrange(16, 20));
        r
    }

    /// Decodes an IPv4 header from the start of `s` and returns it with the
    /// octets after it.
    pub fn from_slice(s: &[u8]) -> (r: Result<(Ipv4Header, &[u8]), Ipv4HeaderSliceError>)
        ensures
            s@.len() < 20 ==> r == Err::<(Ipv4Header, &[u8]), _>(Ipv4HeaderSliceError::Len(LenError {
                required_len: 20,
                len: s@.len() as usize,
                len_source: LenSource::Slice,
                layer: Layer::Ipv4Header,
                layer_start_offset: 0,
            })),
            s@.len() >= 20 && s@[0] / 16 != 4 ==> r == Err::<(Ipv4Header, &[u8]), _>(
                Ipv4HeaderSliceError::Content(Ipv4HeaderError::UnexpectedVersion { version_number: s@[0] / 16 }),
            ),
            s@.len() >= 20 && s@[0] / 16 == 4 && s@[0] % 16 < 5 ==> r == Err::<(Ipv4Header, &[u8]), _>(
                Ipv4HeaderSliceError::Content(Ipv4HeaderError::HeaderLengthSmallerThanHeader { ihl: s@[0] % 16 }),
            ),
            s@.len() >= 20 && s@[0] / 16 == 4 && s@[0] % 16 >= 5 && s@.len() < (s@[0] % 16) * 4 ==> r == Err::<(Ipv4Header, &[u8]), _>(
                Ipv4HeaderSliceError::Len(LenError {
                    required_len: ((s@[0] % 16) * 4) as usize,
                    len: s@.len() as usize,
                    len_source: LenSource::Slice,
                    layer: Layer::Ipv4Header,
                    layer_start_offset: 0,
                }),
            ),
            s@.len() >= 20 && s@[0] / 16 == 4 && s@[0] % 16 >= 5 && s@.len() >= (s@[0] % 16) * 4 ==> (
                r matches Ok((h, rest)) && h.decodes(s@) && h.wf() && h.spec_header_len() == (s@[0] % 16) * 4
                && rest@ == s@.subrange((s@[0] % 16) * 4, s@.len() as int)),
    {
        if s.len() < IPV4_MIN_LEN {
            return Err(
                Ipv4HeaderSliceError::Len(
                    LenError {
                        required_len: IPV4_MIN_LEN,
                        len: s.len(),
                        len_source: LenSource::Slice,
                        layer: Layer::Ipv4Header,
                        layer_start_offset: 0,
                    },
                ),
            );
        }
        let version_number = s[0] / 16;
        if version_number != 4 {
            return Err(
                Ipv4HeaderSliceError::Content(Ipv4HeaderError::UnexpectedVersion { version_number }),
            );
        }
        let ihl = s[0] % 16;
        if ihl < 5 {
            return Err(
                Ipv4HeaderSliceError::Content(Ipv4HeaderError::HeaderLengthSmallerThanHeader { ihl }),
            );
        }
        let hl: usize = (ihl as usize) * 4;
        if s.len() < hl {
            return Err(
                Ipv4HeaderSliceError::Len(
                    LenError {
                        required_len: hl,
                        len: s.len(),
                        len_source: LenSource::Slice,
                        layer: Layer::Ipv4Header,
                        layer_start_offset: 0,
                    },
                ),
            );
        }
        let h = Ipv4Header::decode_unchecked(s);
        Ok((h, &s[hl..s.len()]))
    }

    fn write_with_checksum(&self, out: &mut Vec<u8>, checksum: u16)
        requires
            self.wf(),
        ensures
            final(out)@ == old(out)@ + self.spec_bytes_with(checksum),
    {
        let hl = self.header_len();
        out.push((64 + hl / 4) as u8);
        out.push(self.dscp * 4 + self.ecn);
        push_be16(out, self.total_len);
        push_be16(out, self.identification);
        let flags: u16 = (if self.dont_fragment { 0x4000u16 } else { 0 }) + (if self.more_fragments { 0x2000u16 } else { 0 })
            + self.fragment_offset;
        push_be16(out, flags);
        out.push(self.time_to_live);
        out.push(self.protocol);
        push_be16(out, checksum);
        push_all(out, self.source.as_slice());
        push_all(out, self.destination.as_slice());
        push_all(out, self.options.as_slice());
        assert(out@ =~= old(out)@ + self.spec_bytes_with(checksum));
    }

    /// Computes the header checksum over the header with a zero checksum field.
    pub fn calc_header_checksum(&self) -> (r: u16)
        requires
            self.wf(),
        ensures
            r == self.spec_checksum(),
    {
        let mut tmp: Vec<u8> = Vec::new();
        self.write_with_checksum(&mut tmp, 0);
        assert(tmp@ =~= self.spec_bytes_with(0));
        proof {
            lemma_word_sum_bound(tmp@);
        }
        finish_checksum(add_words(0, tmp.as_slice()))
    }

    /// Appends the on-wire octets of the header, with a freshly computed
    /// checksum, to `out`.
    pub fn write(&self, out: &mut Vec<u8>)
        requires
            self.wf(),
        ensures
            final(out)@ == old(out)@ + self.spec_bytes(),
    {
        let c = self.calc_header_checksum();
        self.write_with_checksum(out, c);
    }

    /// Sets `total_len` to the header length plus `len`; fails, leaving the
    /// header unchanged, if the sum does not fit in 16 bits.
    pub fn set_payload_len(&mut self, len: usize) -> (r: Result<(), ValueTooBigError>)
        requires
            old(self).wf(),
        ensures
            len + old(self).spec_header_len() <= 0xffff ==> r is Ok && final(self).equiv(
                &Ipv4Header { total_len: (len + old(self).spec_header_len()) as u16, ..*old(self) },
            ) && final(self).wf(),
            len + old(self).spec_header_len() > 0xffff ==> r == Err::<(), _>(ValueTooBigError {
                actual: len,
                max_allowed: (0xffff - old(self).spec_header_len()) as usize,
                value_type: ValueType::Ipv4PayloadLength,
            }) && *final(self) == *old(self),
    {
        let hl = self.header_len();
        let max_allowed: usize = 0xffff - hl;
        if len > max_allowed {
            return Err(ValueTooBigError { actual: len, max_allowed, value_type: ValueType::Ipv4PayloadLength });
        }
        self.total_len = (hl + len) as u16;
        Ok(())
    }
}

/// Decoding the octets that `write` produces gives back the header, when its
/// stored checksum is the computed one.
pub proof fn lemma_ipv4_header_round_trip(h: Ipv4Header, rest: Seq<u8>)
    requires
        h.wf(),
    ensures
        ({
            let s = h.spec_bytes() + rest;
            &&& h.spec_bytes().len() == h.spec_header_len()
            &&& s.len() >= 20
            &&& s[0] / 16 == 4
            &&& s[0] % 16 >= 5
            &&& (s[0] % 16) * 4 == h.spec_header_len()
            &&& be16(s[2], s[3]) == h.total_len
            &&& forall|r: Ipv4Header| #[trigger] r.decodes(s) ==> r.equiv(
                &Ipv4Header { header_checksum: h.spec_checksum(), ..h },
            )
        }),
{
    let s = h.spec_bytes() + rest;
    let c = h.spec_checksum();
    let hl = h.spec_header_len();
    crate::bytes::lemma_be16_round_trip(h.total_len);
    crate::bytes::lemma_be16_round_trip(h.identification);
    crate::bytes::lemma_be16_round_trip(c);
    let fw = flags_word(h.dont_fragment, h.more_fragments, h.fragment_offset);
    crate::bytes::lemma_be16_round_trip(fw);
    let df = h.dont_fragment;
    let mf = h.more_fragments;
    let off = h.fragment_offset;
    assert(((fw / 256) as u8 / 64) % 2 == 1 <==> df) by {
        if df && mf {
            assert((((0x6000u16 + off) / 256) as u8 / 64) % 2 == 1) by (bit_vector) requires off < 8192u16;
        } else if df {
            assert((((0x4000u16 + off) / 256) as u8 / 64) % 2 == 1) by (bit_vector) requires off < 8192u16;
        } else if mf {
            assert((((0x2000u16 + off) / 256) as u8 / 64) % 2 == 0) by (bit_vector) requires off < 8192u16;
        } else {
            assert(((off / 256) as u8 / 64) % 2 == 0) by (bit_vector) requires off < 8192u16;
        }
    }
    assert(((fw / 256) as u8 / 32) % 2 == 1 <==> mf) by {
        if df && mf {
            assert((((0x6000u16 + off) / 256) as u8 / 32) % 2 == 1) by (bit_vector) requires off < 8192u16;
        } else if df {
            assert((((0x4000u16 + off) / 256) as u8 / 32) % 2 == 0) by (bit_vector) requires off < 8192u16;
        } else if mf {
            assert((((0x2000u16 + off) / 256) as u8 / 32) % 2 == 1) by (bit_vector) requires off < 8192u16;
        } else {
            assert(((off / 256) as u8 / 32) % 2 == 0) by (bit_vector) requires off < 8192u16;
        }
    }
    assert(fw % 8192 == off);
    assert(s.subrange(12, 16) =~= h.source@);
    assert(s.subrange(16, 20) =~= h.destination@);
    assert(s.subrange(20, hl as int) =~= h.options@);
    assert forall|r: Ipv4Header| #[trigger] r.decodes(s) implies r.equiv(&Ipv4Header { header_checksum: c, ..h }) by {
        assert(r.source =~= h.source);
        assert(r.destination =~= h.destination);
    }
}

} // verus!
