use etherparse::err::{
    ExtsWalkError, HeaderWriteError, IpAuthHeaderError, IpExtsWalkError, IpHeaderError, IpHeaderSliceError,
    Ipv4HeaderError, Ipv4SliceError, Ipv6HeaderError, Ipv6SliceError, Layer, LenError, LenSource, ValueTooBigError,
    ValueType,
};
use etherparse::ip_header::{ReadStep, ETHER_TYPE_IPV4, ETHER_TYPE_IPV6};
use etherparse::ip_number::{AUTH, IPV6_DEST_OPTIONS, IPV6_FRAG, IPV6_HOP_BY_HOP, IPV6_ROUTE, TCP, UDP};
use etherparse::{
    IpAuthHeader, IpHeader, Ipv4Extensions, Ipv4Header, Ipv6Extensions, Ipv6FragmentHeader, Ipv6Header,
    Ipv6RawExtHeader,
};

fn v4_udp_packet() -> Vec<u8> {
    vec![
        0x45, 0x00, 0x00, 0x1C, 0x00, 0x00, 0x00, 0x00, 0x40, 0x11, 0x00, 0x00, 0xC0, 0xA8, 0x00, 0x01, 0xC0, 0xA8,
        0x00, 0x02, 1, 2, 3, 4, 5, 6, 7, 8,
    ]
}

fn v6_fixed(payload_length: u16, next_header: u8) -> Vec<u8> {
    let mut v = vec![0x60, 0, 0, 0, (payload_length >> 8) as u8, payload_length as u8, next_header, 64];
    v.extend_from_slice(&[0u8; 15]);
    v.push(1);
    v.extend_from_slice(&[0u8; 15]);
    v.push(2);
    v
}

fn sample_v4() -> Ipv4Header {
    Ipv4Header {
        dscp: 10,
        ecn: 1,
        total_len: 0,
        identification: 0x1234,
        dont_fragment: true,
        more_fragments: false,
        fragment_offset: 0,
        time_to_live: 64,
        protocol: UDP,
        header_checksum: 0,
        source: [192, 168, 0, 1],
        destination: [192, 168, 0, 2],
        options: vec![1, 2, 3, 4],
    }
}

fn sample_v6() -> Ipv6Header {
    Ipv6Header {
        traffic_class: 0xab,
        flow_label: 0x12345,
        payload_length: 0,
        next_header: UDP,
        hop_limit: 64,
        source: [1; 16],
        destination: [2; 16],
    }
}

fn all_v6_exts() -> Ipv6Extensions {
    Ipv6Extensions {
        hop_by_hop_options: Some(Ipv6RawExtHeader { next_header: 0, payload: vec![1, 2, 3, 4, 5, 6] }),
        routing: Some(Ipv6RawExtHeader { next_header: 0, payload: vec![7; 14] }),
        fragment: Some(Ipv6FragmentHeader {
            next_header: 0,
            fragment_offset: 0,
            more_fragments: false,
            identification: 0xDEADBEEF,
        }),
        destination_options: Some(Ipv6RawExtHeader { next_header: 0, payload: vec![9; 6] }),
        auth: Some(IpAuthHeader::new(0, 5, 6, &[1, 2, 3, 4]).unwrap()),
    }
}

#[test]
fn from_slice_empty() {
    assert_eq!(
        IpHeader::from_slice(&[]).unwrap_err(),
        IpHeaderSliceError::Len(LenError {
            required_len: 1,
            len: 0,
            len_source: LenSource::Slice,
            layer: Layer::IpHeader,
            layer_start_offset: 0,
        })
    );
}

#[test]
fn from_slice_unsupported_version() {
    for version in [0u8, 1, 5, 7, 15] {
        let mut p = v4_udp_packet();
        p[0] = (version << 4) | 5;
        assert_eq!(
            IpHeader::from_slice(&p).unwrap_err(),
            IpHeaderSliceError::Content(IpHeaderError::UnsupportedIpVersion { version_number: version })
        );
    }
}

#[test]
fn from_slice_ihl_too_small() {
    let mut p = v4_udp_packet();
    p[0] = 0x44;
    assert_eq!(
        IpHeader::from_slice(&p[..20]).unwrap_err(),
        IpHeaderSliceError::Content(IpHeaderError::Ipv4HeaderLengthSmallerThanHeader { ihl: 4 })
    );
}

#[test]
fn from_slice_v4_too_short() {
    let p = v4_udp_packet();
    assert_eq!(
        IpHeader::from_slice(&p[..19]).unwrap_err(),
        IpHeaderSliceError::Len(LenError {
            required_len: 20,
            len: 19,
            len_source: LenSource::Slice,
            layer: Layer::Ipv4Header,
            layer_start_offset: 0,
        })
    );
    // options announced by the IHL but missing
    let mut p = v4_udp_packet();
    p[0] = 0x47;
    assert_eq!(
        IpHeader::from_slice(&p[..24]).unwrap_err(),
        IpHeaderSliceError::Len(LenError {
            required_len: 28,
            len: 24,
            len_source: LenSource::Slice,
            layer: Layer::Ipv4Header,
            layer_start_offset: 0,
        })
    );
}

#[test]
fn from_slice_v4_total_len_smaller_than_header() {
    let mut p = v4_udp_packet();
    p[3] = 10;
    assert_eq!(
        IpHeader::from_slice(&p).unwrap_err(),
        IpHeaderSliceError::Len(LenError {
            required_len: 20,
            len: 10,
            len_source: LenSource::Ipv4HeaderTotalLen,
            layer: Layer::Ipv4Packet,
            layer_start_offset: 0,
        })
    );
}

#[test]
fn from_slice_v4_slice_shorter_than_total_len() {
    let mut p = v4_udp_packet();
    p[3] = 40;
    assert_eq!(
        IpHeader::from_slice(&p).unwrap_err(),
        IpHeaderSliceError::Len(LenError {
            required_len: 40,
            len: 28,
            len_source: LenSource::Slice,
            layer: Layer::Ipv4Packet,
            layer_start_offset: 0,
        })
    );
}

#[test]
fn from_slice_v4_udp() {
    let p = v4_udp_packet();
    let (header, payload) = IpHeader::from_slice(&p).unwrap();
    match &header {
        IpHeader::Version4(h, e) => {
            assert_eq!(h.total_len, 28);
            assert_eq!(h.protocol, 17);
            assert_eq!(h.time_to_live, 64);
            assert_eq!(h.source, [192, 168, 0, 1]);
            assert_eq!(h.destination, [192, 168, 0, 2]);
            assert!(e.auth.is_none());
        }
        _ => panic!("expected an IPv4 header"),
    }
    assert_eq!(payload.payload, &[1, 2, 3, 4, 5, 6, 7, 8]);
    assert_eq!(payload.ip_number, 17);
    assert!(!payload.fragmented);
    assert_eq!(payload.len_source, LenSource::Ipv4HeaderTotalLen);
    // trailing octets beyond total_len are not part of the payload
    let mut longer = p.clone();
    longer.extend_from_slice(&[0xff, 0xff]);
    let (_, payload) = IpHeader::from_slice(&longer).unwrap();
    assert_eq!(payload.payload, &[1, 2, 3, 4, 5, 6, 7, 8]);
    // the deprecated form returns the same values
    let (h2, n, pl) = IpHeader::read_from_slice(&p).unwrap();
    assert_eq!(h2, header);
    assert_eq!(n, 17);
    assert_eq!(pl, &[1, 2, 3, 4, 5, 6, 7, 8]);
}

#[test]
fn from_slice_v4_fragmented() {
    let mut p = v4_udp_packet();
    p[6] = 0x20; // MF
    assert!(IpHeader::from_slice(&p).unwrap().1.fragmented);
    let mut p = v4_udp_packet();
    p[7] = 0x01; // offset 1
    assert!(IpHeader::from_slice(&p).unwrap().1.fragmented);
    let mut p = v4_udp_packet();
    p[6] = 0x40; // DF only
    assert!(!IpHeader::from_slice(&p).unwrap().1.fragmented);
}

#[test]
fn from_slice_v6_udp() {
    let mut p = v6_fixed(8, 17);
    p.extend_from_slice(&[1, 2, 3, 4, 5, 6, 7, 8]);
    let (header, payload) = IpHeader::from_slice(&p).unwrap();
    match &header {
        IpHeader::Version6(h, e) => {
            assert_eq!(h.payload_length, 8);
            assert_eq!(h.next_header, 17);
            assert_eq!(h.hop_limit, 64);
            assert!(e.is_empty());
        }
        _ => panic!("expected an IPv6 header"),
    }
    assert_eq!(payload.payload, &[1, 2, 3, 4, 5, 6, 7, 8]);
    assert_eq!(payload.ip_number, 17);
    assert!(!payload.fragmented);
    assert_eq!(payload.len_source, LenSource::Ipv6HeaderPayloadLen);
}

#[test]
fn from_slice_v6_fragment_udp() {
    let mut p = v6_fixed(16, 44);
    p.extend_from_slice(&[17, 0, 0x00, 0x01, 0xDE, 0xAD, 0xBE, 0xEF]);
    p.extend_from_slice(&[1, 2, 3, 4, 5, 6, 7, 8]);
    let (header, payload) = IpHeader::from_slice(&p).unwrap();
    assert!(payload.fragmented);
    assert_eq!(payload.ip_number, 17);
    assert_eq!(payload.payload, &[1, 2, 3, 4, 5, 6, 7, 8]);
    match &header {
        IpHeader::Version6(_, e) => {
            assert_eq!(
                e.fragment,
                Some(Ipv6FragmentHeader {
                    next_header: 17,
                    fragment_offset: 0,
                    more_fragments: true,
                    identification: 0xDEADBEEF,
                })
            );
        }
        _ => panic!("expected an IPv6 header"),
    }
    assert!(header.is_fragmenting_payload());
}

#[test]
fn from_slice_v6_payload_len_too_large() {
    let mut p = v6_fixed(16, 17);
    p.extend_from_slice(&[1, 2, 3, 4, 5, 6, 7, 8]);
    assert_eq!(
        IpHeader::from_slice(&p).unwrap_err(),
        IpHeaderSliceError::Len(LenError {
            required_len: 56,
            len: 48,
            len_source: LenSource::Slice,
            layer: Layer::Ipv6Packet,
            layer_start_offset: 0,
        })
    );
    assert_eq!(
        IpHeader::from_slice(&p[..39]).unwrap_err(),
        IpHeaderSliceError::Len(LenError {
            required_len: 40,
            len: 39,
            len_source: LenSource::Slice,
            layer: Layer::Ipv6Header,
            layer_start_offset: 0,
        })
    );
}

#[test]
fn from_slice_v6_zero_payload_len_uses_rest() {
    let mut p = v6_fixed(0, 17);
    p.extend_from_slice(&[1, 2, 3, 4, 5, 6, 7, 8]);
    let (_, payload) = IpHeader::from_slice(&p).unwrap();
    assert_eq!(payload.payload, &[1, 2, 3, 4, 5, 6, 7, 8]);
    assert_eq!(payload.len_source, LenSource::Slice);
    assert_eq!(payload.ip_number, 17);
    // without octets after the fixed header the payload length governs
    let p = v6_fixed(0, 17);
    let (_, payload) = IpHeader::from_slice(&p).unwrap();
    assert!(payload.payload.is_empty());
    assert_eq!(payload.len_source, LenSource::Ipv6HeaderPayloadLen);
}

#[test]
fn from_slice_auth_zero_payload_len() {
    // IPv4
    let mut p = v4_udp_packet();
    p[9] = AUTH;
    p[20] = 17;
    p[21] = 0;
    assert_eq!(
        IpHeader::from_slice(&p).unwrap_err(),
        IpHeaderSliceError::Content(IpHeaderError::Ipv4Ext(IpAuthHeaderError::ZeroPayloadLen))
    );
    assert_eq!(IpHeader::ipv4_from_slice(&p).unwrap_err(), Ipv4SliceError::Exts(IpAuthHeaderError::ZeroPayloadLen));
    // IPv6
    let mut p = v6_fixed(8, AUTH);
    p.extend_from_slice(&[17, 0, 0, 0, 0, 0, 0, 0]);
    assert_eq!(
        IpHeader::from_slice(&p).unwrap_err(),
        IpHeaderSliceError::Content(IpHeaderError::Ipv6Ext(IpAuthHeaderError::ZeroPayloadLen))
    );
    assert_eq!(IpHeader::ipv6_from_slice(&p).unwrap_err(), Ipv6SliceError::Exts(IpAuthHeaderError::ZeroPayloadLen));
}

#[test]
fn from_slice_v4_auth_extension() {
    let auth = IpAuthHeader::new(UDP, 7, 8, &[0u8; 12]).unwrap();
    assert_eq!(auth.header_len(), 24);
    let mut auth_bytes = Vec::new();
    auth.write(&mut auth_bytes);
    assert_eq!(auth_bytes[1], 4);
    let mut p = v4_udp_packet();
    p[3] = 28 + 24;
    p[9] = AUTH;
    p.splice(20..20, auth_bytes.iter().cloned());
    let (header, payload) = IpHeader::from_slice(&p).unwrap();
    assert_eq!(payload.ip_number, 17);
    assert_eq!(payload.payload, &[1, 2, 3, 4, 5, 6, 7, 8]);
    match &header {
        IpHeader::Version4(h, e) => {
            assert_eq!(h.protocol, AUTH);
            assert_eq!(e.auth, Some(auth.clone()));
        }
        _ => panic!("expected an IPv4 header"),
    }
    assert_eq!(header.header_len(), 44);
    // an authentication header that the protocol field does not reference cannot be written
    let mut orphaned = header.clone();
    if let IpHeader::Version4(h, _) = &mut orphaned {
        h.protocol = UDP;
    }
    let mut out = Vec::new();
    assert_eq!(
        orphaned.write(&mut out).unwrap_err(),
        HeaderWriteError::Ipv4Exts(ExtsWalkError::ExtNotReferenced { missing_ext: AUTH })
    );
    assert!(out.is_empty());
    // truncated authentication header inside total_len
    let mut short = v4_udp_packet();
    short[9] = AUTH;
    short[21] = 4;
    assert_eq!(
        IpHeader::from_slice(&short).unwrap_err(),
        IpHeaderSliceError::Len(LenError {
            required_len: 24,
            len: 8,
            len_source: LenSource::Ipv4HeaderTotalLen,
            layer: Layer::IpAuthHeader,
            layer_start_offset: 20,
        })
    );
}

#[test]
fn from_slice_v6_truncated_extension() {
    let mut p = v6_fixed(8, IPV6_HOP_BY_HOP);
    p.extend_from_slice(&[17, 1, 0, 0, 0, 0, 0, 0]);
    p.extend_from_slice(&[0; 8]);
    assert_eq!(
        IpHeader::from_slice(&p).unwrap_err(),
        IpHeaderSliceError::Len(LenError {
            required_len: 16,
            len: 8,
            len_source: LenSource::Ipv6HeaderPayloadLen,
            layer: Layer::Ipv6ExtHeader,
            layer_start_offset: 40,
        })
    );
}

#[test]
fn from_slice_v6_duplicate_extension_consumed() {
    let mut p = v6_fixed(24, IPV6_DEST_OPTIONS);
    p.extend_from_slice(&[IPV6_DEST_OPTIONS, 0, 1, 1, 1, 1, 1, 1]);
    p.extend_from_slice(&[UDP, 0, 2, 2, 2, 2, 2, 2]);
    p.extend_from_slice(&[5, 6, 7, 8, 9, 10, 11, 12]);
    let (header, payload) = IpHeader::from_slice(&p).unwrap();
    assert_eq!(payload.ip_number, UDP);
    assert_eq!(payload.payload, &[5, 6, 7, 8, 9, 10, 11, 12]);
    match header {
        IpHeader::Version6(_, e) => {
            assert_eq!(e.destination_options.unwrap().payload, vec![1, 1, 1, 1, 1, 1]);
        }
        _ => panic!("expected an IPv6 header"),
    }
}

#[test]
fn ipv4_from_slice_errors() {
    let p = v4_udp_packet();
    let (header, payload) = IpHeader::ipv4_from_slice(&p).unwrap();
    assert_eq!(header, IpHeader::from_slice(&p).unwrap().0);
    assert_eq!(payload.payload, &[1, 2, 3, 4, 5, 6, 7, 8]);
    let mut v6 = v6_fixed(0, UDP);
    assert_eq!(
        IpHeader::ipv4_from_slice(&v6).unwrap_err(),
        Ipv4SliceError::Header(Ipv4HeaderError::UnexpectedVersion { version_number: 6 })
    );
    let mut q = v4_udp_packet();
    q[0] = 0x43;
    assert_eq!(
        IpHeader::ipv4_from_slice(&q).unwrap_err(),
        Ipv4SliceError::Header(Ipv4HeaderError::HeaderLengthSmallerThanHeader { ihl: 3 })
    );
    let mut q = v4_udp_packet();
    q[3] = 40;
    assert_eq!(
        IpHeader::ipv4_from_slice(&q).unwrap_err(),
        Ipv4SliceError::Len(LenError {
            required_len: 40,
            len: 28,
            len_source: LenSource::Slice,
            layer: Layer::Ipv4Packet,
            layer_start_offset: 0,
        })
    );
    v6.truncate(10);
    assert_eq!(
        IpHeader::ipv4_from_slice(&v6).unwrap_err(),
        Ipv4SliceError::Len(LenError {
            required_len: 20,
            len: 10,
            len_source: LenSource::Slice,
            layer: Layer::Ipv4Header,
            layer_start_offset: 0,
        })
    );
}

#[test]
fn ipv6_from_slice_errors() {
    let mut p = v6_fixed(8, UDP);
    p.extend_from_slice(&[1, 2, 3, 4, 5, 6, 7, 8]);
    let (header, payload) = IpHeader::ipv6_from_slice(&p).unwrap();
    assert_eq!(header, IpHeader::from_slice(&p).unwrap().0);
    assert_eq!(payload.payload, &[1, 2, 3, 4, 5, 6, 7, 8]);
    let mut v4 = v4_udp_packet();
    v4.extend_from_slice(&[0; 20]);
    assert_eq!(
        IpHeader::ipv6_from_slice(&v4).unwrap_err(),
        Ipv6SliceError::Header(Ipv6HeaderError::UnexpectedVersion { version_number: 4 })
    );
    assert_eq!(
        IpHeader::ipv6_from_slice(&p[..20]).unwrap_err(),
        Ipv6SliceError::Len(LenError {
            required_len: 40,
            len: 20,
            len_source: LenSource::Slice,
            layer: Layer::Ipv6Header,
            layer_start_offset: 0,
        })
    );
    assert_eq!(
        IpHeader::ipv6_from_slice(&p[..44]).unwrap_err(),
        Ipv6SliceError::Len(LenError {
            required_len: 48,
            len: 44,
            len_source: LenSource::Slice,
            layer: Layer::Ipv6Packet,
            layer_start_offset: 0,
        })
    );
}

#[test]
fn ipv4_write_round_trip() {
    let mut header = IpHeader::Version4(
        sample_v4(),
        Ipv4Extensions { auth: Some(IpAuthHeader::new(UDP, 1, 2, &[3, 4, 5, 6]).unwrap()) },
    );
    assert_eq!(header.set_next_headers(TCP), ETHER_TYPE_IPV4);
    header.set_payload_len(3).unwrap();
    let mut out = Vec::new();
    header.write(&mut out).unwrap();
    assert_eq!(out.len(), header.header_len());
    out.extend_from_slice(&[7, 8, 9]);
    let (decoded, payload) = IpHeader::from_slice(&out).unwrap();
    let expected = match &header {
        IpHeader::Version4(h, e) => {
            let mut h = h.clone();
            h.header_checksum = h.calc_header_checksum();
            IpHeader::Version4(h, e.clone())
        }
        _ => unreachable!(),
    };
    assert_eq!(decoded, expected);
    assert_eq!(payload.payload, &[7, 8, 9]);
    assert_eq!(payload.ip_number, TCP);
}

#[test]
fn ipv6_write_round_trip() {
    let mut header = IpHeader::Version6(sample_v6(), all_v6_exts());
    assert_eq!(header.set_next_headers(UDP), ETHER_TYPE_IPV6);
    header.set_payload_len(4).unwrap();
    let mut out = Vec::new();
    header.write(&mut out).unwrap();
    assert_eq!(out.len(), header.header_len());
    out.extend_from_slice(&[1, 2, 3, 4]);
    let (decoded, payload) = IpHeader::from_slice(&out).unwrap();
    assert_eq!(decoded, header);
    assert_eq!(payload.payload, &[1, 2, 3, 4]);
    assert_eq!(payload.ip_number, UDP);
    assert_eq!(payload.len_source, LenSource::Ipv6HeaderPayloadLen);
}

#[test]
fn ipv6_write_in_chain_order() {
    // destination options before routing: emitted as the chain orders them
    let mut exts = Ipv6Extensions::empty();
    exts.routing = Some(Ipv6RawExtHeader { next_header: UDP, payload: vec![1; 6] });
    exts.destination_options = Some(Ipv6RawExtHeader { next_header: IPV6_ROUTE, payload: vec![2; 6] });
    let mut out = Vec::new();
    exts.write(&mut out, IPV6_DEST_OPTIONS).unwrap();
    assert_eq!(out, vec![IPV6_ROUTE, 0, 2, 2, 2, 2, 2, 2, UDP, 0, 1, 1, 1, 1, 1, 1]);
    assert_eq!(exts.next_header(IPV6_DEST_OPTIONS).unwrap(), UDP);
    assert_eq!(
        exts.next_header(IPV6_ROUTE).unwrap_err(),
        ExtsWalkError::ExtNotReferenced { missing_ext: IPV6_DEST_OPTIONS }
    );
}

#[test]
fn header_len_sums_parts() {
    let v4 = IpHeader::Version4(
        sample_v4(),
        Ipv4Extensions { auth: Some(IpAuthHeader::new(UDP, 0, 0, &[0; 8]).unwrap()) },
    );
    assert_eq!(v4.header_len(), 24 + 20);
    let v6 = IpHeader::Version6(sample_v6(), all_v6_exts());
    assert_eq!(v6.header_len(), 40 + 8 + 16 + 8 + 8 + 16);
    assert_eq!(IpHeader::Version6(sample_v6(), Ipv6Extensions::empty()).header_len(), 40);
}

#[test]
fn set_payload_len_adds_lengths() {
    let mut v4 = IpHeader::Version4(
        sample_v4(),
        Ipv4Extensions { auth: Some(IpAuthHeader::new(UDP, 0, 0, &[]).unwrap()) },
    );
    v4.set_payload_len(100).unwrap();
    match &v4 {
        IpHeader::Version4(h, _) => assert_eq!(h.total_len, 100 + 12 + 24),
        _ => unreachable!(),
    }
    let mut v6 = IpHeader::Version6(sample_v6(), all_v6_exts());
    v6.set_payload_len(100).unwrap();
    match &v6 {
        IpHeader::Version6(h, _) => assert_eq!(h.payload_length, 100 + 56),
        _ => unreachable!(),
    }
    let before = v6.clone();
    assert_eq!(
        v6.set_payload_len(0xffff).unwrap_err(),
        ValueTooBigError { actual: 0xffff + 56, max_allowed: 0xffff, value_type: ValueType::Ipv6PayloadLength }
    );
    assert_eq!(v6, before);
    assert_eq!(
        v4.set_payload_len(0xffff - 36 + 1).unwrap_err(),
        ValueTooBigError { actual: 0xffff - 24 + 1, max_allowed: 0xffff - 24, value_type: ValueType::Ipv4PayloadLength }
    );
    assert_eq!(
        v4.set_payload_len(usize::MAX).unwrap_err(),
        ValueTooBigError { actual: usize::MAX, max_allowed: 0xffff - 24 - 12, value_type: ValueType::Ipv4PayloadLength }
    );
}

#[test]
fn set_next_headers_then_next_header() {
    let mut v6 = IpHeader::Version6(sample_v6(), all_v6_exts());
    v6.set_next_headers(TCP);
    assert_eq!(v6.next_header().unwrap(), TCP);
    match &v6 {
        IpHeader::Version6(h, e) => {
            assert_eq!(h.next_header, IPV6_HOP_BY_HOP);
            assert_eq!(e.hop_by_hop_options.as_ref().unwrap().next_header, IPV6_ROUTE);
            assert_eq!(e.routing.as_ref().unwrap().next_header, IPV6_FRAG);
            assert_eq!(e.fragment.as_ref().unwrap().next_header, IPV6_DEST_OPTIONS);
            assert_eq!(e.destination_options.as_ref().unwrap().next_header, AUTH);
            assert_eq!(e.auth.as_ref().unwrap().next_header, TCP);
        }
        _ => unreachable!(),
    }
    let mut v4 = IpHeader::Version4(sample_v4(), Ipv4Extensions { auth: None });
    v4.set_next_headers(TCP);
    assert_eq!(v4.next_header().unwrap(), TCP);
    let orphan = IpHeader::Version4(
        sample_v4(),
        Ipv4Extensions { auth: Some(IpAuthHeader::new(UDP, 0, 0, &[]).unwrap()) },
    );
    assert_eq!(
        orphan.next_header().unwrap_err(),
        IpExtsWalkError::Ipv4Exts(ExtsWalkError::ExtNotReferenced { missing_ext: AUTH })
    );
}

#[test]
fn is_fragmenting_payload_by_version() {
    let mut h = sample_v4();
    assert!(!IpHeader::Version4(h.clone(), Ipv4Extensions { auth: None }).is_fragmenting_payload());
    h.more_fragments = true;
    assert!(IpHeader::Version4(h.clone(), Ipv4Extensions { auth: None }).is_fragmenting_payload());
    h.more_fragments = false;
    h.fragment_offset = 3;
    assert!(IpHeader::Version4(h, Ipv4Extensions { auth: None }).is_fragmenting_payload());
    let mut e = all_v6_exts();
    assert!(!IpHeader::Version6(sample_v6(), e.clone()).is_fragmenting_payload());
    e.fragment.as_mut().unwrap().fragment_offset = 2;
    assert!(IpHeader::Version6(sample_v6(), e.clone()).is_fragmenting_payload());
    e.fragment = None;
    assert!(!IpHeader::Version6(sample_v6(), e).is_fragmenting_payload());
}

#[test]
fn ipv4_header_checksum() {
    let p = v4_udp_packet();
    let (h, _) = Ipv4Header::from_slice(&p).unwrap();
    assert_eq!(h.calc_header_checksum(), 0xf97d);
    let mut out = Vec::new();
    h.write(&mut out);
    assert_eq!(&out[10..12], &[0xf9, 0x7d]);
}

/// Feeds `stream` to `read_step` the way a reader loop does; returns the
/// result and the number of octets consumed.
fn read_all(stream: &[u8]) -> (Result<(IpHeader, u8), IpHeaderSliceError>, usize) {
    let mut buf: Vec<u8> = Vec::new();
    loop {
        match IpHeader::read_step(&buf) {
            Ok(ReadStep::Need(n)) => {
                assert!(n > 0);
                if buf.len() + n > stream.len() {
                    panic!("stream ended");
                }
                buf.extend_from_slice(&stream[buf.len()..buf.len() + n]);
            }
            Ok(ReadStep::Done(h, next)) => return (Ok((h, next)), buf.len()),
            Err(e) => return (Err(e), buf.len()),
        }
    }
}

#[test]
fn read_step_v4_with_auth() {
    let auth = IpAuthHeader::new(UDP, 7, 8, &[0u8; 12]).unwrap();
    let mut auth_bytes = Vec::new();
    auth.write(&mut auth_bytes);
    let mut p = v4_udp_packet();
    p[3] = 28 + 24;
    p[9] = AUTH;
    p.splice(20..20, auth_bytes.iter().cloned());
    let (r, consumed) = read_all(&p);
    let (header, next) = r.unwrap();
    assert_eq!(consumed, 44);
    assert_eq!(next, UDP);
    assert_eq!(header, IpHeader::from_slice(&p).unwrap().0);
    assert_eq!(IpHeader::read_step(&[]).unwrap(), ReadStep::Need(1));
    assert_eq!(IpHeader::read_step(&p[..1]).unwrap(), ReadStep::Need(19));
}

#[test]
fn read_step_v6_with_extensions() {
    let mut header = IpHeader::Version6(sample_v6(), all_v6_exts());
    header.set_next_headers(UDP);
    header.set_payload_len(4).unwrap();
    let mut out = Vec::new();
    header.write(&mut out).unwrap();
    out.extend_from_slice(&[1, 2, 3, 4]);
    let (r, consumed) = read_all(&out);
    let (decoded, next) = r.unwrap();
    assert_eq!(decoded, header);
    assert_eq!(next, UDP);
    assert_eq!(consumed, 96);
}

#[test]
fn read_step_errors() {
    let mut p = v4_udp_packet();
    p[0] = 0x44;
    assert_eq!(
        IpHeader::read_step(&p[..1]).unwrap_err(),
        IpHeaderSliceError::Content(IpHeaderError::Ipv4HeaderLengthSmallerThanHeader { ihl: 4 })
    );
    assert_eq!(
        IpHeader::read_step(&[0x75]).unwrap_err(),
        IpHeaderSliceError::Content(IpHeaderError::UnsupportedIpVersion { version_number: 7 })
    );
    // authentication header longer than total_len allows
    let mut p = v4_udp_packet();
    p[9] = AUTH;
    p[21] = 4;
    let (r, _) = read_all(&p);
    assert_eq!(
        r.unwrap_err(),
        IpHeaderSliceError::Len(LenError {
            required_len: 24,
            len: 8,
            len_source: LenSource::Ipv4HeaderTotalLen,
            layer: Layer::IpAuthHeader,
            layer_start_offset: 20,
        })
    );
    // IPv6 extension longer than payload_length allows
    let mut p = v6_fixed(8, IPV6_HOP_BY_HOP);
    p.extend_from_slice(&[17, 1, 0, 0, 0, 0, 0, 0]);
    p.extend_from_slice(&[0; 8]);
    let (r, _) = read_all(&p);
    assert_eq!(
        r.unwrap_err(),
        IpHeaderSliceError::Len(LenError {
            required_len: 16,
            len: 8,
            len_source: LenSource::Ipv6HeaderPayloadLen,
            layer: Layer::Ipv6ExtHeader,
            layer_start_offset: 40,
        })
    );
}

#[test]
fn write_v4_auth_named_but_absent() {
    // an IPv4 packet with an authentication header, parsed, then the header removed
    let auth = IpAuthHeader::new(UDP, 7, 8, &[0u8; 12]).unwrap();
    let mut auth_bytes = Vec::new();
    auth.write(&mut auth_bytes);
    let mut p = v4_udp_packet();
    p[3] = 28 + 24;
    p[9] = AUTH;
    p.splice(20..20, auth_bytes.iter().cloned());
    let (mut header, _) = IpHeader::from_slice(&p).unwrap();
    if let IpHeader::Version4(h, e) = &mut header {
        assert_eq!(h.protocol, AUTH);
        e.auth = None;
    }
    let mut out = Vec::new();
    assert_eq!(
        header.write(&mut out).unwrap_err(),
        HeaderWriteError::Ipv4Exts(ExtsWalkError::ExtNotReferenced { missing_ext: AUTH })
    );
    assert!(out.is_empty());
    assert_eq!(
        header.next_header().unwrap_err(),
        IpExtsWalkError::Ipv4Exts(ExtsWalkError::ExtNotReferenced { missing_ext: AUTH })
    );
    assert_eq!(
        Ipv4Extensions { auth: None }.next_header(AUTH).unwrap_err(),
        ExtsWalkError::ExtNotReferenced { missing_ext: AUTH }
    );
}

#[test]
fn set_next_headers_keeps_other_fields() {
    let v4 = sample_v4();
    let auth = IpAuthHeader::new(TCP, 3, 4, &[1, 2, 3, 4]).unwrap();
    let mut header = IpHeader::Version4(v4.clone(), Ipv4Extensions { auth: Some(auth.clone()) });
    assert_eq!(header.set_next_headers(UDP), ETHER_TYPE_IPV4);
    let mut expected_v4 = v4.clone();
    expected_v4.protocol = AUTH;
    let mut expected_auth = auth.clone();
    expected_auth.next_header = UDP;
    assert_eq!(header, IpHeader::Version4(expected_v4, Ipv4Extensions { auth: Some(expected_auth) }));

    let mut header = IpHeader::Version4(v4.clone(), Ipv4Extensions { auth: None });
    header.set_next_headers(UDP);
    let mut expected_v4 = v4.clone();
    expected_v4.protocol = UDP;
    assert_eq!(header, IpHeader::Version4(expected_v4, Ipv4Extensions { auth: None }));

    let mut exts = Ipv6Extensions::empty();
    exts.fragment = Some(Ipv6FragmentHeader { next_header: 0, fragment_offset: 5, more_fragments: true, identification: 9 });
    let mut header = IpHeader::Version6(sample_v6(), exts);
    assert_eq!(header.set_next_headers(TCP), ETHER_TYPE_IPV6);
    let mut expected_v6 = sample_v6();
    expected_v6.next_header = IPV6_FRAG;
    let mut expected_exts = Ipv6Extensions::empty();
    expected_exts.fragment = Some(Ipv6FragmentHeader { next_header: TCP, fragment_offset: 5, more_fragments: true, identification: 9 });
    assert_eq!(header, IpHeader::Version6(expected_v6, expected_exts));
}

#[test]
fn is_valid_checks_field_widths() {
    assert!(IpHeader::Version4(sample_v4(), Ipv4Extensions { auth: None }).is_valid());
    let mut v4 = sample_v4();
    v4.dscp = 64;
    assert!(!IpHeader::Version4(v4, Ipv4Extensions { auth: None }).is_valid());
    let mut v4 = sample_v4();
    v4.options = vec![1, 2, 3];
    assert!(!IpHeader::Version4(v4, Ipv4Extensions { auth: None }).is_valid());
    assert!(IpHeader::Version6(sample_v6(), all_v6_exts()).is_valid());
    let mut v6 = sample_v6();
    v6.flow_label = 0x100000;
    assert!(!IpHeader::Version6(v6, Ipv6Extensions::empty()).is_valid());
    let mut exts = Ipv6Extensions::empty();
    exts.routing = Some(Ipv6RawExtHeader { next_header: UDP, payload: vec![0; 7] });
    assert!(!IpHeader::Version6(sample_v6(), exts).is_valid());
}
