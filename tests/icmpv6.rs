use etherparse::err::ReadError;
use etherparse::icmpv6::{
    CODE_DST_UNREACH_PORT, TYPE_DST_UNREACH, TYPE_ECHO_REPLY, TYPE_ECHO_REQUEST, TYPE_PACKET_TOO_BIG, TYPE_PARAM_PROB,
    TYPE_TIME_EXCEEDED,
};
use etherparse::{
    DestUnreachableHeader, Icmp6Type, IcmpEchoHeader, Icmpv6Header, Icmpv6HeaderSlice, Ipv6Header, ParameterProblemCode,
    TimeExceededCode,
};

fn loopback_ipv6() -> Ipv6Header {
    let mut addr = [0u8; 16];
    addr[15] = 1;
    Ipv6Header {
        traffic_class: 0,
        flow_label: 0,
        payload_length: 12,
        next_header: 58,
        hop_limit: 64,
        source: addr,
        destination: addr,
    }
}

#[test]
fn echo_request_checksum() {
    let ip = loopback_ipv6();
    let t = Icmp6Type::EchoRequest(IcmpEchoHeader { id: 0x1234, seq: 0x0001 });
    let payload = b"abcd";
    let header = Icmpv6Header::with_checksum(t, &ip, payload).unwrap();
    assert_eq!(header.checksum, 0xA8BB);
    assert!(header.is_checksum_valid(&ip, payload).unwrap());
    assert_eq!(header.to_bytes(), [128, 0, 0xA8, 0xBB, 0x12, 0x34, 0x00, 0x01]);
    // flipping any bit of the payload invalidates the checksum
    for i in 0..payload.len() {
        for bit in 0..8 {
            let mut altered = *payload;
            altered[i] ^= 1 << bit;
            assert!(!header.is_checksum_valid(&ip, &altered).unwrap());
        }
    }
    assert_eq!(t.to_header(&ip, payload).unwrap(), header);
    assert_eq!(t.calc_checksum(&ip, payload).unwrap(), 0xA8BB);
}

#[test]
fn update_checksum_sets_valid_checksum() {
    let ip = loopback_ipv6();
    let mut header = Icmpv6Header::new(Icmp6Type::EchoReply(IcmpEchoHeader { id: 1, seq: 2 }));
    assert_eq!(header.checksum, 0);
    header.update_checksum(&ip, &[1, 2, 3]).unwrap();
    assert!(header.is_checksum_valid(&ip, &[1, 2, 3]).unwrap());
    assert!(!header.is_checksum_valid(&ip, &[1, 2, 4]).unwrap());
}

#[test]
fn dest_unreachable_port() {
    let invoking = [0x60u8, 0, 0, 0, 0, 0, 17, 64];
    let ip = loopback_ipv6();
    let header = Icmpv6Header::with_checksum(
        Icmp6Type::DestinationUnreachable(DestUnreachableHeader::Port),
        &ip,
        &invoking,
    )
    .unwrap();
    let mut packet = Vec::new();
    header.write(&mut packet);
    packet.extend_from_slice(&invoking);
    assert_eq!(&packet[..2], &[TYPE_DST_UNREACH, CODE_DST_UNREACH_PORT]);
    assert_eq!(&packet[4..8], &[0, 0, 0, 0]);
    let (decoded, rest) = Icmpv6Header::from_slice(&packet).unwrap();
    assert_eq!(decoded.icmp_type, Icmp6Type::DestinationUnreachable(DestUnreachableHeader::Port));
    assert_eq!(rest, &invoking);
    assert_eq!(&decoded.to_bytes()[..], &packet[..8]);
    assert!(decoded.is_checksum_valid(&ip, rest).unwrap());
}

#[test]
fn dest_unreachable_codes() {
    let expected = [
        DestUnreachableHeader::NoRoute,
        DestUnreachableHeader::Prohibited,
        DestUnreachableHeader::BeyondScope,
        DestUnreachableHeader::Address,
        DestUnreachableHeader::Port,
        DestUnreachableHeader::SourceAddressFailedPolicy,
        DestUnreachableHeader::RejectRoute,
    ];
    for (code, h) in expected.iter().enumerate() {
        assert_eq!(DestUnreachableHeader::from_bytes(code as u8, [1, 2, 3, 4]), *h);
        assert_eq!(h.code(), code as u8);
        assert_eq!(h.to_bytes(), (code as u8, [0; 4]));
    }
    let raw = DestUnreachableHeader::from_bytes(7, [1, 2, 3, 4]);
    assert_eq!(raw, DestUnreachableHeader::Raw { code: 7, bytes5to8: [1, 2, 3, 4] });
    assert_eq!(raw.code(), 7);
    assert_eq!(raw.to_bytes(), (7, [1, 2, 3, 4]));
}

#[test]
fn raw_type_round_trip() {
    let bytes = [200u8, 5, 0x12, 0x34, 1, 2, 3, 4, 99];
    let (h, rest) = Icmpv6Header::from_slice(&bytes).unwrap();
    assert_eq!(h.icmp_type, Icmp6Type::Raw { icmp_type: 200, icmp_code: 5, bytes5to8: [1, 2, 3, 4] });
    assert_eq!(h.checksum, 0x1234);
    assert_eq!(rest, &[99]);
    assert_eq!(h.to_bytes(), [200, 5, 0x12, 0x34, 1, 2, 3, 4]);
    assert_eq!(h.icmp_type.type_value(), 200);
    assert_eq!(h.icmp_type.code_value(), 5);
}

#[test]
fn known_types_decode() {
    let (h, _) = Icmpv6Header::from_slice(&[TYPE_PACKET_TOO_BIG, 0, 0, 0, 0, 0, 0x05, 0xdc]).unwrap();
    assert_eq!(h.icmp_type, Icmp6Type::PacketTooBig { mtu: 1500 });
    let (h, _) = Icmpv6Header::from_slice(&[TYPE_TIME_EXCEEDED, 1, 0, 0, 0, 0, 0, 0]).unwrap();
    assert_eq!(h.icmp_type, Icmp6Type::TimeExceeded { code: TimeExceededCode::FragmentReassemblyTimeExceeded });
    let (h, _) = Icmpv6Header::from_slice(&[TYPE_TIME_EXCEEDED, 0, 0, 0, 0, 0, 0, 0]).unwrap();
    assert_eq!(h.icmp_type, Icmp6Type::TimeExceeded { code: TimeExceededCode::HopLimitExceeded });
    let (h, _) = Icmpv6Header::from_slice(&[TYPE_TIME_EXCEEDED, 9, 0, 0, 0, 0, 0, 0]).unwrap();
    assert_eq!(h.icmp_type, Icmp6Type::TimeExceeded { code: TimeExceededCode::Raw { code: 9 } });
    let (h, _) = Icmpv6Header::from_slice(&[TYPE_PARAM_PROB, 2, 0, 0, 0, 0, 1, 0]).unwrap();
    assert_eq!(
        h.icmp_type,
        Icmp6Type::ParameterProblem { code: ParameterProblemCode::Raw { code: 2 }, pointer: 256 }
    );
    assert_eq!(h.icmp_type.to_bytes(), (TYPE_PARAM_PROB, 2, [0, 0, 1, 0]));
    let (h, _) = Icmpv6Header::from_slice(&[TYPE_ECHO_REPLY, 0, 0, 0, 0xab, 0xcd, 0, 7]).unwrap();
    assert_eq!(h.icmp_type, Icmp6Type::EchoReply(IcmpEchoHeader { id: 0xabcd, seq: 7 }));
    assert_eq!(h.icmp_type.type_value(), TYPE_ECHO_REPLY);
    assert_eq!(Icmp6Type::EchoRequest(IcmpEchoHeader { id: 1, seq: 2 }).type_value(), TYPE_ECHO_REQUEST);
    assert_eq!(u8::from(TimeExceededCode::from(1u8)), 1);
    assert_eq!(u8::from(ParameterProblemCode::from(3u8)), 3);
}

#[test]
fn header_lengths() {
    let t = Icmp6Type::PacketTooBig { mtu: 1280 };
    assert_eq!(t.header_len(), 8);
    assert_eq!(Icmpv6Header::new(t).header_len(), 8);
    assert_eq!(Icmpv6Header::new(t).to_bytes(), [2, 0, 0, 0, 0, 0, 5, 0]);
}

#[test]
fn from_slice_too_short() {
    assert_eq!(Icmpv6Header::from_slice(&[1, 2, 3, 4, 5, 6, 7]).unwrap_err(), ReadError::UnexpectedEndOfSlice(8));
    assert_eq!(Icmpv6HeaderSlice::from_slice(&[]).unwrap_err(), ReadError::UnexpectedEndOfSlice(8));
}

#[test]
fn header_slice_fields() {
    let bytes = [TYPE_ECHO_REQUEST, 3, 0xaa, 0xbb, 1, 2, 3, 4, 5];
    let s = Icmpv6HeaderSlice::from_slice(&bytes).unwrap();
    assert_eq!(s.type_value(), TYPE_ECHO_REQUEST);
    assert_eq!(s.code_value(), 3);
    assert_eq!(s.checksum(), 0xaabb);
    assert_eq!(s.bytes5to8(), [1, 2, 3, 4]);
    assert_eq!(s.slice(), &bytes[..8]);
    assert_eq!(
        s.to_header(),
        Icmpv6Header { icmp_type: Icmp6Type::EchoRequest(IcmpEchoHeader { id: 0x0102, seq: 0x0304 }), checksum: 0xaabb }
    );
}
