use vstd::prelude::*;
use crate::bytes::be16;
use crate::err::{
    HeaderWriteError, IpAuthHeaderError, IpAuthHeaderSliceError, IpExtsWalkError, IpHeaderError,
    IpHeaderSliceError, Ipv4HeaderError, Ipv4SliceError, Ipv6HeaderError, Ipv6SliceError, Layer,
    LenError, LenSource, ValueTooBigError, ValueType,
};
use crate::ipv4_extensions::Ipv4Extensions;
use crate::ipv4_header::{Ipv4Header, Ipv4HeaderSliceError, IPV4_MIN_LEN};
use crate::ipv6_extensions::{lemma_exts_round_trip, walk, walk_error, Ipv6Extensions, WalkEnd};
use crate::ipv6_header::{Ipv6Header, Ipv6HeaderSliceError, IPV6_HEADER_LEN};

verus! {

/// Ether type of IPv4.
pub const ETHER_TYPE_IPV4: u16 = 0x0800;

/// Ether type of IPv6.
pub const ETHER_TYPE_IPV6: u16 = 0x86dd;

/// An IPv4 or IPv6 header with its extension headers.
#[derive(Clone, Debug, PartialEq, Eq)]
pub enum IpHeader {
    /// IPv4 header and extension headers.
    Version4(Ipv4Header, Ipv4Extensions),
    /// IPv6 header and extension headers.
    Version6(Ipv6Header, Ipv6Extensions),
}

/// The payload of an IP packet after its header and extension headers.
#[derive(Clone, Copy, Debug, PartialEq, Eq)]
pub struct IpPayload<'a> {
    /// Protocol number of the payload (after the last extension header).
    pub ip_number: u8,
    /// True if the payload is a fragment of a larger datagram.
    pub fragmented: bool,
    /// The length bound that limited the payload.
    pub len_source: LenSource,
    /// The payload octets.
    pub payload: &'a [u8],
}

/// A length error of an extension chain, moved `offset` octets further into
/// the packet and attributed to `source`.
pub open spec fn moved_len_error(e: LenError, offset: nat, source: LenSource) -> LenError {
    LenError { layer_start_offset: (e.layer_start_offset + offset) as usize, len_source: source, ..e }
}

/// Length of the IPv4 header at the start of `s` according to its IHL field.
pub open spec fn v4_header_len(s: Seq<u8>) -> nat {
    (s[0] % 16) as nat * 4
}

/// The `total_len` field of the IPv4 header at the start of `s`.
pub open spec fn v4_total_len(s: Seq<u8>) -> nat {
    be16(s[2], s[3]) as nat
}

/// The octets between the IPv4 header and the end given by `total_len`.
pub open spec fn v4_window(s: Seq<u8>) -> Seq<u8> {
    s.subrange(v4_header_len(s) as int, v4_total_len(s) as int)
}

/// For an IPv4 header that fits `s`: the error from the total length or the
/// extensions, if any.
pub open spec fn v4_packet_error(s: Seq<u8>) -> Option<IpAuthHeaderSliceError> {
    let hl = v4_header_len(s);
    let tl = v4_total_len(s);
    if tl < hl {
        Some(IpAuthHeaderSliceError::Len(LenError {
            required_len: hl as usize,
            len: tl as usize,
            len_source: LenSource::Ipv4HeaderTotalLen,
            layer: Layer::Ipv4Packet,
            layer_start_offset: 0,
        }))
    } else if s.len() < tl {
        Some(IpAuthHeaderSliceError::Len(LenError {
            required_len: tl as usize,
            len: s.len() as usize,
            len_source: LenSource::Slice,
            layer: Layer::Ipv4Packet,
            layer_start_offset: 0,
        }))
    } else {
        match Ipv4Extensions::slice_error(s[9], v4_window(s)) {
            Some(IpAuthHeaderSliceError::Len(e)) => Some(
                IpAuthHeaderSliceError::Len(moved_len_error(e, hl, LenSource::Ipv4HeaderTotalLen)),
            ),
            other => other,
        }
    }
}

/// `(hdr, pl)` is the IPv4 packet that `s` holds.
pub open spec fn v4_packet_ok(s: Seq<u8>, hdr: IpHeader, pl: IpPayload) -> bool {
    let w = v4_window(s);
    &&& hdr matches IpHeader::Version4(h, e)
    &&& h.decodes(s) && h.wf() && e.wf()
    &&& e.decodes(s[9], w, pl.ip_number)
    &&& pl.fragmented == h.spec_is_fragmenting_payload()
    &&& pl.len_source == LenSource::Ipv4HeaderTotalLen
    &&& pl.payload@ == w.subrange(Ipv4Extensions::spec_consumed(s[9], w) as int, w.len() as int)
}

/// The `payload_length` field of the IPv6 header at the start of `s`.
pub open spec fn v6_payload_len(s: Seq<u8>) -> nat {
    be16(s[4], s[5]) as nat
}

/// A zero payload length with octets after the fixed header: the rest of
/// the slice is taken as the packet (partial jumbogram support).
pub open spec fn v6_uses_rest(s: Seq<u8>) -> bool {
    v6_payload_len(s) == 0 && s.len() > 40
}

/// The octets after the IPv6 fixed header that belong to the packet.
pub open spec fn v6_window(s: Seq<u8>) -> Seq<u8> {
    if v6_uses_rest(s) {
        s.subrange(40, s.len() as int)
    } else {
        s.subrange(40, 40 + v6_payload_len(s) as int)
    }
}

/// The length bound that governs the IPv6 packet.
pub open spec fn v6_len_source(s: Seq<u8>) -> LenSource {
    if v6_uses_rest(s) {
        LenSource::Slice
    } else {
        LenSource::Ipv6HeaderPayloadLen
    }
}

/// For an IPv6 fixed header that fits `s`: the error from the payload
/// length or the extensions, if any.
pub open spec fn v6_packet_error(s: Seq<u8>) -> Option<IpAuthHeaderSliceError> {
    if !v6_uses_rest(s) && s.len() < 40 + v6_payload_len(s) {
        Some(IpAuthHeaderSliceError::Len(LenError {
            required_len: (40 + v6_payload_len(s)) as usize,
            len: s.len() as usize,
            len_source: LenSource::Slice,
            layer: Layer::Ipv6Packet,
            layer_start_offset: 0,
        }))
    } else {
        match walk_error(s[6], v6_window(s)) {
            Some(IpAuthHeaderSliceError::Len(e)) => Some(
                IpAuthHeaderSliceError::Len(moved_len_error(e, 40, v6_len_source(s))),
            ),
            other => other,
        }
    }
}

/// `(hdr, pl)` is the IPv6 packet that `s` holds.
pub open spec fn v6_packet_ok(s: Seq<u8>, hdr: IpHeader, pl: IpPayload) -> bool {
    let w = v6_window(s);
    &&& hdr matches IpHeader::Version6(h, e)
    &&& h.decodes(s) && h.wf() && e.wf()
    &&& e.decodes(s[6], w)
    &&& walk(s[6], w, 0) matches WalkEnd::Done { next, end }
    &&& pl.ip_number == next
    &&& pl.payload@ == w.subrange(end as int, w.len() as int)
    &&& pl.fragmented == e.spec_is_fragmenting_payload()
    &&& pl.len_source == v6_len_source(s)
}

/// The error `IpHeader::from_slice` reports for `s`, if any.
pub open spec fn ip_slice_error(s: Seq<u8>) -> Option<IpHeaderSliceError> {
    if s.len() == 0 {
        Some(IpHeaderSliceError::Len(LenError {
            required_len: 1,
            len: 0,
            len_source: LenSource::Slice,
            layer: Layer::IpHeader,
            layer_start_offset: 0,
        }))
    } else if s[0] / 16 == 4 {
        if s.len() < 20 {
            Some(IpHeaderSliceError::Len(LenError {
                required_len: 20,
                len: s.len() as usize,
                len_source: LenSource::Slice,
                layer: Layer::Ipv4Header,
                layer_start_offset: 0,
            }))
        } else if s[0] % 16 < 5 {
            Some(IpHeaderSliceError::Content(IpHeaderError::Ipv4HeaderLengthSmallerThanHeader { ihl: s[0] % 16 }))
        } else if s.len() < v4_header_len(s) {
            Some(IpHeaderSliceError::Len(LenError {
                required_len: v4_header_len(s) as usize,
                len: s.len() as usize,
                len_source: LenSource::Slice,
                layer: Layer::Ipv4Header,
                layer_start_offset: 0,
            }))
        } else {
            match v4_packet_error(s) {
                Some(IpAuthHeaderSliceError::Len(e)) => Some(IpHeaderSliceError::Len(e)),
                Some(IpAuthHeaderSliceError::Content(c)) => Some(IpHeaderSliceError::Content(IpHeaderError::Ipv4Ext(c))),
                None => None,
            }
        }
    } else if s[0] / 16 == 6 {
        if s.len() < 40 {
            Some(IpHeaderSliceError::Len(LenError {
                required_len: 40,
                len: s.len() as usize,
                len_source: LenSource::Slice,
                layer: Layer::Ipv6Header,
                layer_start_offset: 0,
            }))
        } else {
            match v6_packet_error(s) {
                Some(IpAuthHeaderSliceError::Len(e)) => Some(IpHeaderSliceError::Len(e)),
                Some(IpAuthHeaderSliceError::Content(c)) => Some(IpHeaderSliceError::Content(IpHeaderError::Ipv6Ext(c))),
                None => None,
            }
        }
    } else {
        Some(IpHeaderSliceError::Content(IpHeaderError::UnsupportedIpVersion { version_number: s[0] / 16 }))
    }
}

/// The error `IpHeader::ipv4_from_slice` reports for `s`, if any.
pub open spec fn ipv4_slice_error(s: Seq<u8>) -> Option<Ipv4SliceError> {
    if s.len() < 20 {
        Some(Ipv4SliceError::Len(LenError {
            required_len: 20,
            len: s.len() as usize,
            len_source: LenSource::Slice,
            layer: Layer::Ipv4Header,
            layer_start_offset: 0,
        }))
    } else if s[0] / 16 != 4 {
        Some(Ipv4SliceError::Header(Ipv4HeaderError::UnexpectedVersion { version_number: s[0] / 16 }))
    } else if s[0] % 16 < 5 {
        Some(Ipv4SliceError::Header(Ipv4HeaderError::HeaderLengthSmallerThanHeader { ihl: s[0] % 16 }))
    } else if s.len() < v4_header_len(s) {
        Some(Ipv4SliceError::Len(LenError {
            required_len: v4_header_len(s) as usize,
            len: s.len() as usize,
            len_source: LenSource::Slice,
            layer: Layer::Ipv4Header,
            layer_start_offset: 0,
        }))
    } else {
        match v4_packet_error(s) {
            Some(IpAuthHeaderSliceError::Len(e)) => Some(Ipv4SliceError::Len(e)),
            Some(IpAuthHeaderSliceError::Content(c)) => Some(Ipv4SliceError::Exts(c)),
            None => None,
        }
    }
}

/// The error `IpHeader::ipv6_from_slice` reports for `s`, if any.
pub open spec fn ipv6_slice_error(s: Seq<u8>) -> Option<Ipv6SliceError> {
    if s.len() < 40 {
        Some(Ipv6SliceError::Len(LenError {
            required_len: 40,
            len: s.len() as usize,
            len_source: LenSource::Slice,
            layer: Layer::Ipv6Header,
            layer_start_offset: 0,
        }))
    } else if s[0] / 16 != 6 {
        Some(Ipv6SliceError::Header(Ipv6HeaderError::UnexpectedVersion { version_number: s[0] / 16 }))
    } else {
        match v6_packet_error(s) {
            Some(IpAuthHeaderSliceError::Len(e)) => Some(Ipv6SliceError::Len(e)),
            Some(IpAuthHeaderSliceError::Content(c)) => Some(Ipv6SliceError::Exts(c)),
            None => None,
        }
    }
}

/// Moves a length error of an extension chain `offset` octets into the packet.
fn move_len_error(e: IpAuthHeaderSliceError, offset: usize, source: LenSource, bound: usize) -> (r: IpAuthHeaderSliceError)
    requires
        e matches IpAuthHeaderSliceError::Len(l) ==> l.layer_start_offset + offset <= bound,
    ensures
        r == (match e {
            IpAuthHeaderSliceError::Len(l) => IpAuthHeaderSliceError::Len(moved_len_error(l, offset as nat, source)),
            other => other,
        }),
{
    match e {
        IpAuthHeaderSliceError::Len(l) => IpAuthHeaderSliceError::Len(
            LenError { layer_start_offset: l.layer_start_offset + offset, len_source: source, ..l },
        ),
        other => other,
    }
}

/// Decodes the extensions and payload of an IPv4 packet whose header `h`
/// has been decoded from `s`.
fn v4_packet<'a>(s: &'a [u8], h: Ipv4Header) -> (r: Result<(IpHeader, IpPayload<'a>), IpAuthHeaderSliceError>)
    requires
        h.decodes(s@),
        h.wf(),
    ensures
        v4_packet_error(s@) is Some ==> r == Err::<(IpHeader, IpPayload<'a>), _>(v4_packet_error(s@).unwrap()),
        v4_packet_error(s@) is None ==> (r matches Ok((hdr, pl)) && v4_packet_ok(s@, hdr, pl)),
{
    let hl: usize = h.header_len();
    let total_len: usize = h.total_len as usize;
    if total_len < hl {
        return Err(
            IpAuthHeaderSliceError::Len(
                LenError {
                    required_len: hl,
                    len: total_len,
                    len_source: LenSource::Ipv4HeaderTotalLen,
                    layer: Layer::Ipv4Packet,
                    layer_start_offset: 0,
                },
            ),
        );
    }
    if s.len() < total_len {
        return Err(
            IpAuthHeaderSliceError::Len(
                LenError {
                    required_len: total_len,
                    len: s.len(),
                    len_source: LenSource::Slice,
                    layer: Layer::Ipv4Packet,
                    layer_start_offset: 0,
                },
            ),
        );
    }
    let window = &s[hl..total_len];
    match Ipv4Extensions::from_slice(h.protocol, window) {
        Ok((exts, next, rest)) => {
            let fragmented = h.is_fragmenting_payload();
            Ok((
                IpHeader::Version4(h, exts),
                IpPayload { ip_number: next, fragmented, len_source: LenSource::Ipv4HeaderTotalLen, payload: rest },
            ))
        },
        Err(e) => Err(move_len_error(e, hl, LenSource::Ipv4HeaderTotalLen, s.len())),
    }
}

/// Decodes the extensions and payload of an IPv6 packet whose fixed header
/// `h` has been decoded from `s`.
fn v6_packet<'a>(s: &'a [u8], h: Ipv6Header) -> (r: Result<(IpHeader, IpPayload<'a>), IpAuthHeaderSliceError>)
    requires
        h.decodes(s@),
        h.wf(),
    ensures
        v6_packet_error(s@) is Some ==> r == Err::<(IpHeader, IpPayload<'a>), _>(v6_packet_error(s@).unwrap()),
        v6_packet_error(s@) is None ==> (r matches Ok((hdr, pl)) && v6_packet_ok(s@, hdr, pl)),
{
    let payload_len: usize = h.payload_length as usize;
    let (window, len_source) = if payload_len == 0 && s.len() > IPV6_HEADER_LEN {
        (&s[IPV6_HEADER_LEN..s.len()], LenSource::Slice)
    } else {
        if s.len() < IPV6_HEADER_LEN + payload_len {
            return Err(
                IpAuthHeaderSliceError::Len(
                    LenError {
                        required_len: IPV6_HEADER_LEN + payload_len,
                        len: s.len(),
                        len_source: LenSource::Slice,
                        layer: Layer::Ipv6Packet,
                        layer_start_offset: 0,
                    },
                ),
            );
        }
        (&s[IPV6_HEADER_LEN..IPV6_HEADER_LEN + payload_len], LenSource::Ipv6HeaderPayloadLen)
    };
    assert(window@ == v6_window(s@));
    proof {
        lemma_walk_short_start(h.next_header, window@, 0);
    }
    match Ipv6Extensions::from_slice(h.next_header, window) {
        Ok((exts, next, rest)) => {
            let fragmented = exts.is_fragmenting_payload();
            Ok((IpHeader::Version6(h, exts), IpPayload { ip_number: next, fragmented, len_source, payload: rest }))
        },
        Err(e) => Err(move_len_error(e, IPV6_HEADER_LEN, len_source, s.len())),
    }
}

/// A truncated extension header of a walk lies within the walked octets.
pub proof fn lemma_walk_short_start(next: u8, s: Seq<u8>, pos: nat)
    requires
        pos <= s.len(),
    ensures
        walk(next, s, pos) matches WalkEnd::Short { start, required, .. } ==> start <= s.len() && required <= 2048
            && start + required > s.len(),
        walk(next, s, pos) matches WalkEnd::Done { end, .. } ==> pos <= end <= s.len(),
    decreases s.len() - pos,
{
    if crate::ip_number::is_ipv6_ext(next) && s.len() >= pos + 2 && !(next == crate::ip_number::AUTH && s[pos + 1int] == 0)
        && s.len() >= pos + crate::ipv6_extensions::ext_len_at(next, s, pos) {
        lemma_walk_short_start(s[pos as int], s, pos + crate::ipv6_extensions::ext_len_at(next, s, pos));
    }
}

/// The next step of reading a header stack from a stream.
#[derive(Clone, Debug, PartialEq, Eq)]
pub enum ReadStep {
    /// This many more octets must be read and appended.
    Need(usize),
    /// The header stack is complete; the protocol number after it.
    Done(IpHeader, u8),
}

/// The octets from `start` up to `start + limit`, as far as `s` holds them.
pub open spec fn limited_window(s: Seq<u8>, start: nat, limit: nat) -> Seq<u8> {
    if s.len() < start + limit {
        s.subrange(start as int, s.len() as int)
    } else {
        s.subrange(start as int, (start + limit) as int)
    }
}

/// The octets of the IPv4 extensions read so far, within `total_len`.
pub open spec fn v4_read_window(s: Seq<u8>) -> Seq<u8> {
    limited_window(s, v4_header_len(s), (v4_total_len(s) - v4_header_len(s)) as nat)
}

/// The octets of the IPv6 extensions read so far, within `payload_length`.
pub open spec fn v6_read_window(s: Seq<u8>) -> Seq<u8> {
    limited_window(s, 40, v6_payload_len(s))
}

impl IpHeader {
    /// Decodes an IPv4 or IPv6 header with its extension headers from the
    /// start of `s`, as selected by the version nibble; returns it with the
    /// payload that the length fields delimit.
    pub fn from_slice(s: &[u8]) -> (r: Result<(IpHeader, IpPayload<'_>), IpHeaderSliceError>)
        ensures
            ip_slice_error(s@) is Some ==> r == Err::<(IpHeader, IpPayload<'_>), _>(ip_slice_error(s@).unwrap()),
            ip_slice_error(s@) is None ==> (r matches Ok((hdr, pl)) && (if s@[0] / 16 == 4 {
                v4_packet_ok(s@, hdr, pl)
            } else {
                v6_packet_ok(s@, hdr, pl)
            })),
    {
        if s.len() == 0 {
            return Err(
                IpHeaderSliceError::Len(
                    LenError {
                        required_len: 1,
                        len: 0,
                        len_source: LenSource::Slice,
                        layer: Layer::IpHeader,
                        layer_start_offset: 0,
                    },
                ),
            );
        }
        let version_number = s[0] / 16;
        if version_number == 4 {
            if s.len() < IPV4_MIN_LEN {
                return Err(
                    IpHeaderSliceError::Len(
                        LenError {
                            required_len: IPV4_MIN_LEN,
                            len: s.len(),
                            len_source: LenSource::Slice,
                            layer: Layer::Ipv4Header,
                            layer_start_offset: 0,
                        },
                    ),
                );
            }
            let ihl = s[0] % 16;
            if ihl < 5 {
                return Err(IpHeaderSliceError::Content(IpHeaderError::Ipv4HeaderLengthSmallerThanHeader { ihl }));
            }
            let hl: usize = (ihl as usize) * 4;
            if s.len() < hl {
                return Err(
                    IpHeaderSliceError::Len(
                        LenError {
                            required_len: hl,
                            len: s.len(),
                            len_source: LenSource::Slice,
                            layer: Layer::Ipv4Header,
                            layer_start_offset: 0,
                        },
                    ),
                );
            }
            let h = Ipv4Header::decode_unchecked(s);
            match v4_packet(s, h) {
                Ok(r) => Ok(r),
                Err(IpAuthHeaderSliceError::Len(e)) => Err(IpHeaderSliceError::Len(e)),
                Err(IpAuthHeaderSliceError::Content(c)) => Err(IpHeaderSliceError::Content(IpHeaderError::Ipv4Ext(c))),
            }
        } else if version_number == 6 {
            if s.len() < IPV6_HEADER_LEN {
                return Err(
                    IpHeaderSliceError::Len(
                        LenError {
                            required_len: IPV6_HEADER_LEN,
                            len: s.len(),
                            len_source: LenSource::Slice,
                            layer: Layer::Ipv6Header,
                            layer_start_offset: 0,
                        },
                    ),
                );
            }
            let h = Ipv6Header::decode_unchecked(s);
            match v6_packet(s, h) {
                Ok(r) => Ok(r),
                Err(IpAuthHeaderSliceError::Len(e)) => Err(IpHeaderSliceError::Len(e)),
                Err(IpAuthHeaderSliceError::Content(c)) => Err(IpHeaderSliceError::Content(IpHeaderError::Ipv6Ext(c))),
            }
        } else {
            Err(IpHeaderSliceError::Content(IpHeaderError::UnsupportedIpVersion { version_number }))
        }
    }

    /// Like `from_slice`, returning the payload's protocol number and octets
    /// instead of the payload descriptor.
    pub fn read_from_slice(s: &[u8]) -> (r: Result<(IpHeader, u8, &[u8]), IpHeaderSliceError>)
        ensures
            ip_slice_error(s@) is Some ==> r == Err::<(IpHeader, u8, &[u8]), _>(ip_slice_error(s@).unwrap()),
            ip_slice_error(s@) is None ==> (r matches Ok((hdr, n, p)) && exists|pl: IpPayload|
                pl.ip_number == n && pl.payload@ == p@ && (if s@[0] / 16 == 4 {
                    v4_packet_ok(s@, hdr, pl)
                } else {
                    v6_packet_ok(s@, hdr, pl)
                })),
    {
        match IpHeader::from_slice(s) {
            Ok((hdr, pl)) => Ok((hdr, pl.ip_number, pl.payload)),
            Err(e) => Err(e),
        }
    }

    /// Decodes an IPv4 header with its extension headers from the start of
    /// `s`; returns it with the payload that `total_len` delimits.
    pub fn ipv4_from_slice(s: &[u8]) -> (r: Result<(IpHeader, IpPayload<'_>), Ipv4SliceError>)
        ensures
            ipv4_slice_error(s@) is Some ==> r == Err::<(IpHeader, IpPayload<'_>), _>(ipv4_slice_error(s@).unwrap()),
            ipv4_slice_error(s@) is None ==> (r matches Ok((hdr, pl)) && v4_packet_ok(s@, hdr, pl)),
    {
        let h = match Ipv4Header::from_slice(s) {
            Ok((h, _rest)) => h,
            Err(Ipv4HeaderSliceError::Len(e)) => {
                return Err(Ipv4SliceError::Len(e));
            },
            Err(Ipv4HeaderSliceError::Content(c)) => {
                return Err(Ipv4SliceError::Header(c));
            },
        };
        match v4_packet(s, h) {
            Ok(r) => Ok(r),
            Err(IpAuthHeaderSliceError::Len(e)) => Err(Ipv4SliceError::Len(e)),
            Err(IpAuthHeaderSliceError::Content(c)) => Err(Ipv4SliceError::Exts(c)),
        }
    }

    /// Decodes an IPv6 header with its extension headers from the start of
    /// `s`; returns it with the payload that `payload_length` delimits (or the
    /// rest of `s` when `payload_length` is zero).
    pub fn ipv6_from_slice(s: &[u8]) -> (r: Result<(IpHeader, IpPayload<'_>), Ipv6SliceError>)
        ensures
            ipv6_slice_error(s@) is Some ==> r == Err::<(IpHeader, IpPayload<'_>), _>(ipv6_slice_error(s@).unwrap()),
            ipv6_slice_error(s@) is None ==> (r matches Ok((hdr, pl)) && v6_packet_ok(s@, hdr, pl)),
    {
        let h = match Ipv6Header::from_slice(s) {
            Ok((h, _rest)) => h,
            Err(Ipv6HeaderSliceError::Len(e)) => {
                return Err(Ipv6SliceError::Len(e));
            },
            Err(Ipv6HeaderSliceError::Content(c)) => {
                return Err(Ipv6SliceError::Header(c));
            },
        };
        match v6_packet(s, h) {
            Ok(r) => Ok(r),
            Err(IpAuthHeaderSliceError::Len(e)) => Err(Ipv6SliceError::Len(e)),
            Err(IpAuthHeaderSliceError::Content(c)) => Err(Ipv6SliceError::Exts(c)),
        }
    }

    /// Equal field values (variable-length fields compared by content).
    pub open spec fn equiv(&self, o: &IpHeader) -> bool {
        match (self, o) {
            (IpHeader::Version4(h1, e1), IpHeader::Version4(h2, e2)) => h1.equiv(h2) && e1.equiv(e2),
            (IpHeader::Version6(h1, e1), IpHeader::Version6(h2, e2)) => h1 == h2 && e1.equiv(e2),
            _ => false,
        }
    }

    /// Decides the next step of reading a header stack from a stream, given
    /// the octets `buf` read so far: how many more octets are needed, or the
    /// decoded headers. The IPv4 `total_len` and the IPv6 `payload_length`
    /// bound the extension headers; an extension header that does not fit is
    /// a length error attributed to that field.
    pub fn read_step(buf: &[u8]) -> (r: Result<ReadStep, IpHeaderSliceError>)
        ensures
            buf@.len() == 0 ==> r == Ok::<ReadStep, IpHeaderSliceError>(ReadStep::Need(1)),
            buf@.len() > 0 && buf@[0] / 16 != 4 && buf@[0] / 16 != 6 ==> r == Err::<ReadStep, _>(
                IpHeaderSliceError::Content(IpHeaderError::UnsupportedIpVersion { version_number: buf@[0] / 16 }),
            ),
            buf@.len() > 0 && buf@[0] / 16 == 4 ==> {
                let s = buf@;
                let hl = v4_header_len(s);
                let w = v4_read_window(s);
                let limit = (v4_total_len(s) - hl) as nat;
                if s[0] % 16 < 5 {
                    r == Err::<ReadStep, _>(IpHeaderSliceError::Content(
                        IpHeaderError::Ipv4HeaderLengthSmallerThanHeader { ihl: s[0] % 16 },
                    ))
                } else if s.len() < hl {
                    r == Ok::<ReadStep, IpHeaderSliceError>(ReadStep::Need((hl - s.len()) as usize))
                } else if v4_total_len(s) < hl {
                    r == Err::<ReadStep, _>(IpHeaderSliceError::Len(LenError {
                        required_len: hl as usize,
                        len: v4_total_len(s) as usize,
                        len_source: LenSource::Ipv4HeaderTotalLen,
                        layer: Layer::Ipv4Packet,
                        layer_start_offset: 0,
                    }))
                } else {
                    match Ipv4Extensions::slice_error(s[9], w) {
                        None => r matches Ok(ReadStep::Done(hdr, next)) && (hdr matches IpHeader::Version4(h, e)
                            && h.decodes(s) && h.wf() && e.wf() && e.decodes(s[9], w, next)),
                        Some(IpAuthHeaderSliceError::Len(le)) => if le.required_len > limit {
                            r == Err::<ReadStep, _>(IpHeaderSliceError::Len(LenError {
                                required_len: le.required_len,
                                len: limit as usize,
                                len_source: LenSource::Ipv4HeaderTotalLen,
                                layer: le.layer,
                                layer_start_offset: hl as usize,
                            }))
                        } else {
                            r == Ok::<ReadStep, IpHeaderSliceError>(ReadStep::Need((le.required_len - w.len()) as usize))
                        },
                        Some(IpAuthHeaderSliceError::Content(c)) => r == Err::<ReadStep, _>(
                            IpHeaderSliceError::Content(IpHeaderError::Ipv4Ext(c)),
                        ),
                    }
                }
            },
            buf@.len() > 0 && buf@[0] / 16 == 6 ==> {
                let s = buf@;
                let w = v6_read_window(s);
                let limit = v6_payload_len(s);
                if s.len() < 40 {
                    r == Ok::<ReadStep, IpHeaderSliceError>(ReadStep::Need((40 - s.len()) as usize))
                } else {
                    match walk(s[6], w, 0) {
                        WalkEnd::Done { next, .. } => r matches Ok(ReadStep::Done(hdr, n)) && n == next && (
                        hdr matches IpHeader::Version6(h, e) && h.decodes(s) && h.wf() && e.wf() && e.decodes(s[6], w)),
                        WalkEnd::Short { required, start, layer } => if start + required > limit {
                            r == Err::<ReadStep, _>(IpHeaderSliceError::Len(LenError {
                                required_len: required as usize,
                                len: (limit - start) as usize,
                                len_source: LenSource::Ipv6HeaderPayloadLen,
                                layer,
                                layer_start_offset: (start + 40) as usize,
                            }))
                        } else {
                            r == Ok::<ReadStep, IpHeaderSliceError>(ReadStep::Need((start + required - w.len()) as usize))
                        },
                        WalkEnd::ZeroAuthLen => r == Err::<ReadStep, _>(
                            IpHeaderSliceError::Content(IpHeaderError::Ipv6Ext(IpAuthHeaderError::ZeroPayloadLen)),
                        ),
                    }
                }
            },
            r matches Ok(ReadStep::Need(n)) ==> n > 0,
    {
        if buf.len() == 0 {
            return Ok(ReadStep::Need(1));
        }
        let version_number = buf[0] / 16;
        if version_number == 4 {
            let ihl = buf[0] % 16;
            if ihl < 5 {
                return Err(IpHeaderSliceError::Content(IpHeaderError::Ipv4HeaderLengthSmallerThanHeader { ihl }));
            }
            let hl: usize = (ihl as usize) * 4;
            if buf.len() < hl {
                return Ok(ReadStep::Need(hl - buf.len()));
            }
            let h = Ipv4Header::decode_unchecked(buf);
            let total_len: usize = h.total_len as usize;
            if total_len < hl {
                return Err(
                    IpHeaderSliceError::Len(
                        LenError {
                            required_len: hl,
                            len: total_len,
                            len_source: LenSource::Ipv4HeaderTotalLen,
                            layer: Layer::Ipv4Packet,
                            layer_start_offset: 0,
                        },
                    ),
                );
            }
            let limit = total_len - hl;
            let end = if buf.len() < total_len { buf.len() } else { total_len };
            let w = &buf[hl..end];
            match Ipv4Extensions::from_slice(h.protocol, w) {
                Ok((e, next, _rest)) => Ok(ReadStep::Done(IpHeader::Version4(h, e), next)),
                Err(IpAuthHeaderSliceError::Len(le)) => {
                    if le.required_len > limit {
                        Err(
                            IpHeaderSliceError::Len(
                                LenError {
                                    required_len: le.required_len,
                                    len: limit,
                                    len_source: LenSource::Ipv4HeaderTotalLen,
                                    layer: le.layer,
                                    layer_start_offset: hl,
                                },
                            ),
                        )
                    } else {
                        Ok(ReadStep::Need(le.required_len - w.len()))
                    }
                },
                Err(IpAuthHeaderSliceError::Content(c)) => Err(IpHeaderSliceError::Content(IpHeaderError::Ipv4Ext(c))),
            }
        } else if version_number == 6 {
            if buf.len() < IPV6_HEADER_LEN {
                return Ok(ReadStep::Need(IPV6_HEADER_LEN - buf.len()));
            }
            let h = Ipv6Header::decode_unchecked(buf);
            let limit: usize = h.payload_length as usize;
            let end = if buf.len() < IPV6_HEADER_LEN + limit { buf.len() } else { IPV6_HEADER_LEN + limit };
            let w = &buf[IPV6_HEADER_LEN..end];
            proof {
                lemma_walk_short_start(h.next_header, w@, 0);
            }
            match Ipv6Extensions::from_slice(h.next_header, w) {
                Ok((e, next, _rest)) => Ok(ReadStep::Done(IpHeader::Version6(h, e), next)),
                Err(IpAuthHeaderSliceError::Len(le)) => {
                    if le.layer_start_offset + le.required_len > limit {
                        Err(
                            IpHeaderSliceError::Len(
                                LenError {
                                    required_len: le.required_len,
                                    len: limit - le.layer_start_offset,
                                    len_source: LenSource::Ipv6HeaderPayloadLen,
                                    layer: le.layer,
                                    layer_start_offset: le.layer_start_offset + IPV6_HEADER_LEN,
                                },
                            ),
                        )
                    } else {
                        Ok(ReadStep::Need(le.layer_start_offset + le.required_len - w.len()))
                    }
                },
                Err(IpAuthHeaderSliceError::Content(c)) => Err(IpHeaderSliceError::Content(IpHeaderError::Ipv6Ext(c))),
            }
        } else {
            Err(IpHeaderSliceError::Content(IpHeaderError::UnsupportedIpVersion { version_number }))
        }
    }

    /// Both the header and its extensions fit their on-wire fields.
    pub open spec fn wf(&self) -> bool {
        match self {
            IpHeader::Version4(h, e) => h.wf() && e.wf(),
            IpHeader::Version6(h, e) => h.wf() && e.wf(),
        }
    }

    pub open spec fn spec_header_len(&self) -> nat {
        match self {
            IpHeader::Version4(h, e) => h.spec_header_len() + e.spec_header_len(),
            IpHeader::Version6(_, e) => 40 + e.spec_header_len(),
        }
    }

    pub open spec fn spec_next_header(&self) -> Result<u8, IpExtsWalkError> {
        match self {
            IpHeader::Version4(h, e) => match e.spec_next_header(h.protocol) {
                Ok(n) => Ok(n),
                Err(x) => Err(IpExtsWalkError::Ipv4Exts(x)),
            },
            IpHeader::Version6(h, e) => match e.spec_next_header(h.next_header) {
                Ok(n) => Ok(n),
                Err(x) => Err(IpExtsWalkError::Ipv6Exts(x)),
            },
        }
    }

    /// On-wire octets as `write` emits them.
    pub open spec fn spec_bytes(&self) -> Seq<u8> {
        match self {
            IpHeader::Version4(h, e) => h.spec_bytes() + e.spec_bytes(),
            IpHeader::Version6(h, e) => h.spec_bytes() + e.spec_bytes(h.next_header),
        }
    }

    pub open spec fn spec_is_fragmenting_payload(&self) -> bool {
        match self {
            IpHeader::Version4(h, _) => h.spec_is_fragmenting_payload(),
            IpHeader::Version6(_, e) => e.spec_is_fragmenting_payload(),
        }
    }

    /// True if the header and every extension fit their on-wire fields.
    pub fn is_valid(&self) -> (r: bool)
        ensures
            r == self.wf(),
    {
        match self {
            IpHeader::Version4(h, e) => h.is_valid() && e.is_valid(),
            IpHeader::Version6(h, e) => h.is_valid() && e.is_valid(),
        }
    }

    /// Appends the header and its extensions to `out`; fails, writing nothing,
    /// if an extension header is not referenced by the next header chain, or
    /// an IPv4 protocol field names an authentication header that is absent.
    pub fn write(&self, out: &mut Vec<u8>) -> (r: Result<(), HeaderWriteError>)
        requires
            self.wf(),
        ensures
            r is Ok <==> self.spec_next_header() is Ok,
            r is Ok ==> final(out)@ == old(out)@ + self.spec_bytes(),
            r is Err ==> final(out)@ == old(out)@,
            r matches Err(HeaderWriteError::Ipv4Exts(x)) ==> self.spec_next_header() == Err::<u8, _>(IpExtsWalkError::Ipv4Exts(x)),
            r matches Err(HeaderWriteError::Ipv6Exts(x)) ==> self.spec_next_header() == Err::<u8, _>(IpExtsWalkError::Ipv6Exts(x)),
    {
        match self {
            IpHeader::Version4(h, e) => {
                if let Err(x) = e.next_header(h.protocol) {
                    return Err(HeaderWriteError::Ipv4Exts(x));
                }
                h.write(out);
                match e.write(out, h.protocol) {
                    Ok(()) => {
                        assert(out@ =~= old(out)@ + self.spec_bytes());
                        Ok(())
                    },
                    Err(x) => Err(HeaderWriteError::Ipv4Exts(x)),
                }
            },
            IpHeader::Version6(h, e) => {
                if let Err(x) = e.next_header(h.next_header) {
                    return Err(HeaderWriteError::Ipv6Exts(x));
                }
                h.write(out);
                match e.write(out, h.next_header) {
                    Ok(()) => {
                        assert(out@ =~= old(out)@ + self.spec_bytes());
                        Ok(())
                    },
                    Err(x) => Err(HeaderWriteError::Ipv6Exts(x)),
                }
            },
        }
    }

    /// Serialized length of the header and all its extensions.
    pub fn header_len(&self) -> (r: usize)
        requires
            self.wf(),
        ensures
            r == self.spec_header_len(),
    {
        match self {
            IpHeader::Version4(h, e) => h.header_len() + e.header_len(),
            IpHeader::Version6(_, e) => IPV6_HEADER_LEN + e.header_len(),
        }
    }

    /// Returns the protocol number after the header and its extensions.
    pub fn next_header(&self) -> (r: Result<u8, IpExtsWalkError>)
        ensures
            r == self.spec_next_header(),
    {
        match self {
            IpHeader::Version4(h, e) => match e.next_header(h.protocol) {
                Ok(n) => Ok(n),
                Err(x) => Err(IpExtsWalkError::Ipv4Exts(x)),
            },
            IpHeader::Version6(h, e) => match e.next_header(h.next_header) {
                Ok(n) => Ok(n),
                Err(x) => Err(IpExtsWalkError::Ipv6Exts(x)),
            },
        }
    }

    /// Sets the next header fields of the header and its extensions so that
    /// the chain ends in `last`; returns the ether type of the IP version.
    pub fn set_next_headers(&mut self, last: u8) -> (r: u16)
        ensures
            final(self).wf() == old(self).wf(),
            final(self).spec_header_len() == old(self).spec_header_len(),
            !(*old(self) matches IpHeader::Version4(_, e) && e.auth is None && last == crate::ip_number::AUTH)
                ==> final(self).spec_next_header() == Ok::<u8, IpExtsWalkError>(last),
            match *old(self) {
                IpHeader::Version4(h, e) => r == ETHER_TYPE_IPV4 && *final(self) == IpHeader::Version4(
                    Ipv4Header { protocol: e.spec_with_next_headers(last).1, ..h },
                    e.spec_with_next_headers(last).0,
                ),
                IpHeader::Version6(h, e) => r == ETHER_TYPE_IPV6 && *final(self) == IpHeader::Version6(
                    Ipv6Header { next_header: e.spec_with_next_headers(last).1, ..h },
                    e.spec_with_next_headers(last).0,
                ),
            },
    {
        match self {
            IpHeader::Version4(h, e) => {
                h.protocol = e.set_next_headers(last);
                ETHER_TYPE_IPV4
            },
            IpHeader::Version6(h, e) => {
                h.next_header = e.set_next_headers(last);
                ETHER_TYPE_IPV6
            },
        }
    }

    /// Sets the length field of the IP header for a payload of `len` octets
    /// after the header and its extensions; fails, leaving the header
    /// unchanged, if the length does not fit in the field.
    pub fn set_payload_len(&mut self, len: usize) -> (r: Result<(), ValueTooBigError>)
        requires
            old(self).wf(),
        ensures
            final(self).wf(),
            r is Err ==> *final(self) == *old(self),
            match *old(self) {
                IpHeader::Version4(h, e) => {
                    &&& len + e.spec_header_len() + h.spec_header_len() <= 0xffff ==> (r is Ok
                        && (*final(self) matches IpHeader::Version4(h2, e2) && e2 == e && h2.equiv(
                        &Ipv4Header { total_len: (len + e.spec_header_len() + h.spec_header_len()) as u16, ..h },
                    )))
                    &&& len + e.spec_header_len() > usize::MAX ==> r == Err::<(), _>(ValueTooBigError {
                        actual: len,
                        max_allowed: (0xffff - h.spec_header_len() - e.spec_header_len()) as usize,
                        value_type: ValueType::Ipv4PayloadLength,
                    })
                    &&& (len + e.spec_header_len() <= usize::MAX && len + e.spec_header_len() + h.spec_header_len() > 0xffff)
                        ==> r == Err::<(), _>(ValueTooBigError {
                        actual: (len + e.spec_header_len()) as usize,
                        max_allowed: (0xffff - h.spec_header_len()) as usize,
                        value_type: ValueType::Ipv4PayloadLength,
                    })
                },
                IpHeader::Version6(h, e) => {
                    &&& len + e.spec_header_len() <= 0xffff ==> (r is Ok && *final(self) == IpHeader::Version6(
                        Ipv6Header { payload_length: (len + e.spec_header_len()) as u16, ..h },
                        e,
                    ))
                    &&& len + e.spec_header_len() > usize::MAX ==> r == Err::<(), _>(ValueTooBigError {
                        actual: len,
                        max_allowed: (0xffff - e.spec_header_len()) as usize,
                        value_type: ValueType::Ipv6PayloadLength,
                    })
                    &&& (len + e.spec_header_len() <= usize::MAX && len + e.spec_header_len() > 0xffff)
                        ==> r == Err::<(), _>(ValueTooBigError {
                        actual: (len + e.spec_header_len()) as usize,
                        max_allowed: 0xffff,
                        value_type: ValueType::Ipv6PayloadLength,
                    })
                },
            },
    {
        match self {
            IpHeader::Version4(h, e) => {
                let el = e.header_len();
                if len > usize::MAX - el {
                    return Err(ValueTooBigError {
                        actual: len,
                        max_allowed: 0xffff - h.header_len() - el,
                        value_type: ValueType::Ipv4PayloadLength,
                    });
                }
                h.set_payload_len(len + el)
            },
            IpHeader::Version6(h, e) => {
                let el = e.header_len();
                if len > usize::MAX - el {
                    return Err(ValueTooBigError {
                        actual: len,
                        max_allowed: 0xffff - el,
                        value_type: ValueType::Ipv6PayloadLength,
                    });
                }
                h.set_payload_length(len + el)
            },
        }
    }

    /// True if the payload is a fragment: by the IPv4 MF flag or fragment
    /// offset, or by an IPv6 fragment header.
    pub fn is_fragmenting_payload(&self) -> (r: bool)
        ensures
            r == self.spec_is_fragmenting_payload(),
    {
        match self {
            IpHeader::Version4(h, _) => h.is_fragmenting_payload(),
            IpHeader::Version6(_, e) => e.is_fragmenting_payload(),
        }
    }
}

/// Writing a well-formed IPv4 header with its extensions (any that `write`
/// accepts) and decoding the octets, followed by a payload that `total_len`
/// accounts for and any further octets, gives back the header (with the
/// checksum `write` computed), the payload and the protocol number after the
/// extensions.
#[verifier::rlimit(50)]
pub proof fn lemma_ipv4_round_trip(h: Ipv4Header, e: Ipv4Extensions, payload: Seq<u8>, tail: Seq<u8>)
    requires
        h.wf(),
        e.wf(),
        e.spec_next_header(h.protocol) is Ok,
        h.total_len as nat == h.spec_header_len() + e.spec_header_len() + payload.len(),
    ensures
        ({
            let hdr = IpHeader::Version4(h, e);
            let s = hdr.spec_bytes() + payload + tail;
            &&& ip_slice_error(s) is None
            &&& ipv4_slice_error(s) is None
            &&& s[0] / 16 == 4
            &&& forall|hdr2: IpHeader, pl: IpPayload| #[trigger] v4_packet_ok(s, hdr2, pl) ==> {
                &&& hdr2.equiv(&IpHeader::Version4(Ipv4Header { header_checksum: h.spec_checksum(), ..h }, e))
                &&& pl.payload@ == payload
                &&& pl.ip_number == e.spec_next_header(h.protocol).unwrap()
                &&& pl.len_source == LenSource::Ipv4HeaderTotalLen
                &&& pl.fragmented == h.spec_is_fragmenting_payload()
            }
        }),
{
    let hdr = IpHeader::Version4(h, e);
    let hb = h.spec_bytes();
    let eb = e.spec_bytes();
    let s = hdr.spec_bytes() + payload + tail;
    let rest = eb + payload + tail;
    assert(s =~= hb + rest);
    crate::ipv4_header::lemma_ipv4_header_round_trip(h, rest);
    let hl = h.spec_header_len();
    assert(v4_header_len(s) == hl);
    assert(v4_total_len(s) == h.total_len);
    let w = v4_window(s);
    assert(w =~= eb + payload);
    assert(s[9] == h.protocol);
    match e.auth {
        Some(a) => {
            crate::ip_auth_header::lemma_auth_round_trip(a, payload);
            assert(eb.len() == a.spec_header_len());
            assert(w.subrange(a.spec_header_len() as int, w.len() as int) =~= payload);
        },
        None => {
            assert(eb.len() == 0);
            assert(w =~= payload);
            assert(w.subrange(0, w.len() as int) =~= payload);
        },
    }
    assert forall|hdr2: IpHeader, pl: IpPayload| #[trigger] v4_packet_ok(s, hdr2, pl) implies {
        &&& hdr2.equiv(&IpHeader::Version4(Ipv4Header { header_checksum: h.spec_checksum(), ..h }, e))
        &&& pl.payload@ == payload
        &&& pl.ip_number == e.spec_next_header(h.protocol).unwrap()
        &&& pl.len_source == LenSource::Ipv4HeaderTotalLen
        &&& pl.fragmented == h.spec_is_fragmenting_payload()
    } by {
        if let IpHeader::Version4(h2, e2) = hdr2 {
            assert(h2.decodes(s));
            match e.auth {
                Some(a) => {
                    assert(e2.auth.unwrap().decodes(w));
                },
                None => {},
            }
        }
    }
}

/// Writing a well-formed IPv6 header (not a jumbogram) with its extensions
/// and decoding the octets, followed by the payload that `payload_length`
/// accounts for and any further octets, gives back the header, the payload
/// and the protocol number after the extensions.
pub proof fn lemma_ipv6_round_trip(h: Ipv6Header, e: Ipv6Extensions, payload: Seq<u8>, tail: Seq<u8>)
    requires
        h.wf(),
        e.wf(),
        e.spec_next_header(h.next_header) is Ok,
        !crate::ip_number::is_ipv6_ext(e.spec_next_header(h.next_header).unwrap()),
        h.payload_length as nat == e.spec_header_len() + payload.len(),
        h.payload_length != 0,
    ensures
        ({
            let hdr = IpHeader::Version6(h, e);
            let s = hdr.spec_bytes() + payload + tail;
            &&& ip_slice_error(s) is None
            &&& ipv6_slice_error(s) is None
            &&& s[0] / 16 == 6
            &&& forall|hdr2: IpHeader, pl: IpPayload| #[trigger] v6_packet_ok(s, hdr2, pl) ==> {
                &&& hdr2.equiv(&hdr)
                &&& pl.payload@ == payload
                &&& pl.ip_number == e.spec_next_header(h.next_header).unwrap()
                &&& pl.len_source == LenSource::Ipv6HeaderPayloadLen
                &&& pl.fragmented == e.spec_is_fragmenting_payload()
            }
        }),
{
    let hdr = IpHeader::Version6(h, e);
    let first = h.next_header;
    let t = e.spec_next_header(first).unwrap();
    let eb = e.spec_bytes(first);
    lemma_exts_round_trip(e, first, payload);
    let s = hdr.spec_bytes() + payload + tail;
    lemma_ipv6_layout(h, eb, payload, tail);
    let w = v6_window(s);
    assert(walk_error(first, w) is None);
    assert(v6_packet_error(s) is None);
    assert forall|hdr2: IpHeader, pl: IpPayload| #[trigger] v6_packet_ok(s, hdr2, pl) implies {
        &&& hdr2.equiv(&hdr)
        &&& pl.payload@ == payload
        &&& pl.ip_number == t
        &&& pl.len_source == LenSource::Ipv6HeaderPayloadLen
        &&& pl.fragmented == e.spec_is_fragmenting_payload()
    } by {
        if let IpHeader::Version6(h2, e2) = hdr2 {
            crate::ipv6_header::lemma_ipv6_header_round_trip(h, h2, (eb + payload) + tail);
            assert(w.subrange(eb.len() as int, w.len() as int) =~= payload);
        }
    }
}

/// Where the fields and the window of a written IPv6 packet lie.
proof fn lemma_ipv6_layout(h: Ipv6Header, eb: Seq<u8>, payload: Seq<u8>, tail: Seq<u8>)
    requires
        h.wf(),
        h.payload_length as nat == eb.len() + payload.len(),
        h.payload_length != 0,
    ensures
        ({
            let s = h.spec_bytes() + eb + payload + tail;
            &&& s == h.spec_bytes() + ((eb + payload) + tail)
            &&& s.len() >= 40
            &&& s[0] / 16 == 6
            &&& s[6] == h.next_header
            &&& !v6_uses_rest(s)
            &&& v6_len_source(s) == LenSource::Ipv6HeaderPayloadLen
            &&& v6_window(s) == eb + payload
        }),
{
    let hb = h.spec_bytes();
    let s = hb + eb + payload + tail;
    assert(s =~= hb + ((eb + payload) + tail));
    assert(hb.len() == 40);
    crate::bytes::lemma_be16_round_trip(h.payload_length);
    assert(s[4] == hb[4] && s[5] == hb[5] && s[6] == hb[6] && s[0] == hb[0]);
    assert(v6_payload_len(s) == h.payload_length);
    assert(v6_window(s) =~= eb + payload);
    let tc = h.traffic_class;
    assert(((96 + tc / 16) as u8) / 16 == 6) by (bit_vector);
}

} // verus!
