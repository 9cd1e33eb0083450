use etherparse::err::{ExtsWalkError, IpAuthHeaderError, IpAuthHeaderSliceError, Layer, LenError, LenSource, ValueError};
use etherparse::ip_number::{AUTH, TCP, UDP};
use etherparse::{IpAuthHeader, Ipv4Extensions};

#[test]
fn from_slice() {
    let auth_header = IpAuthHeader::new(UDP, 0, 0, &[]).unwrap();

    let buffer = {
        let mut buffer = Vec::with_capacity(auth_header.header_len());
        auth_header.write(&mut buffer);
        buffer.push(1);
        buffer.push(2);
        buffer
    };

    // no auth header
    {
        let (header, next, rest) = Ipv4Extensions::from_slice(TCP, &buffer).unwrap();
        assert!(header.auth.is_none());
        assert_eq!(TCP, next);
        assert_eq!(rest, &buffer[..]);
    }

    // with auth header
    {
        let (actual, next, rest) = Ipv4Extensions::from_slice(AUTH, &buffer).unwrap();
        assert_eq!(actual.auth.unwrap(), auth_header);
        assert_eq!(UDP, next);
        assert_eq!(rest, &buffer[auth_header.header_len()..]);
    }

    // too small
    {
        const AUTH_HEADER_LEN: usize = 12;
        assert_eq!(
            Ipv4Extensions::from_slice(AUTH, &buffer[..auth_header.header_len() - 1]).unwrap_err(),
            IpAuthHeaderSliceError::Len(LenError {
                required_len: AUTH_HEADER_LEN,
                len: auth_header.header_len() - 1,
                len_source: LenSource::Slice,
                layer: Layer::IpAuthHeader,
                layer_start_offset: 0,
            })
        );
    }
}

#[test]
fn write() {
    // None
    {
        let mut buffer = Vec::new();
        Ipv4Extensions { auth: None }.write(&mut buffer, UDP).unwrap();
        assert_eq!(0, buffer.len());
    }

    // Some
    let auth_header = IpAuthHeader::new(UDP, 0, 0, &[]).unwrap();
    {
        let mut buffer = Vec::with_capacity(auth_header.header_len());
        Ipv4Extensions { auth: Some(auth_header.clone()) }.write(&mut buffer, AUTH).unwrap();
        let (read_header, _) = IpAuthHeader::from_slice(&buffer).unwrap();
        assert_eq!(auth_header, read_header);
    }

    // Some bad start number
    {
        let mut buffer = Vec::new();
        let err = Ipv4Extensions { auth: Some(auth_header.clone()) }.write(&mut buffer, UDP).unwrap_err();
        assert_eq!(err, ExtsWalkError::ExtNotReferenced { missing_ext: AUTH });
        // nothing is written when the chain does not reference the extension
        assert_eq!(0, buffer.len());
    }
}

#[test]
fn header_len() {
    // None
    assert_eq!(0, Ipv4Extensions { auth: None }.header_len());

    // Some
    {
        let auth = IpAuthHeader::new(UDP, 0, 0, &[]).unwrap();
        assert_eq!(auth.header_len(), Ipv4Extensions { auth: Some(auth.clone()) }.header_len());
    }
    // Some with payload
    {
        let auth = IpAuthHeader::new(UDP, 0, 0, &[1, 2, 3, 4]).unwrap();
        assert_eq!(auth.header_len(), Ipv4Extensions { auth: Some(auth.clone()) }.header_len());
    }
}

#[test]
fn set_next_headers() {
    // None
    {
        let mut exts = Ipv4Extensions { auth: None };
        assert_eq!(UDP, exts.set_next_headers(UDP));
    }

    // Some
    {
        let mut exts = Ipv4Extensions { auth: Some(IpAuthHeader::new(TCP, 0, 0, &[]).unwrap()) };
        assert_eq!(TCP, exts.auth.as_ref().unwrap().next_header);
        // change from TCP to UDP
        let re = exts.set_next_headers(UDP);
        assert_eq!(AUTH, re);
        assert_eq!(UDP, exts.auth.as_ref().unwrap().next_header);
    }
}

#[test]
fn next_header() {
    // None
    {
        let exts = Ipv4Extensions { auth: None };
        assert_eq!(UDP, exts.next_header(UDP).unwrap());
    }
    // Some
    {
        let exts = Ipv4Extensions { auth: Some(IpAuthHeader::new(TCP, 0, 0, &[]).unwrap()) };

        // auth referenced
        assert_eq!(TCP, exts.next_header(AUTH).unwrap());

        // auth not referenced (error)
        assert_eq!(ExtsWalkError::ExtNotReferenced { missing_ext: AUTH }, exts.next_header(TCP).unwrap_err());
    }
}

#[test]
fn ipv4_extensions_is_empty() {
    // empty
    assert!(Ipv4Extensions { auth: None }.is_empty());

    // auth
    assert_eq!(
        false,
        Ipv4Extensions { auth: Some(IpAuthHeader::new(UDP, 0, 0, &[]).unwrap()) }.is_empty()
    );
}

#[test]
fn auth_header_round_trip_with_icv() {
    let auth = IpAuthHeader::new(UDP, 0x01020304, 0x0a0b0c0d, &[9, 8, 7, 6, 5, 4, 3, 2]).unwrap();
    assert_eq!(20, auth.header_len());
    let mut buffer = Vec::new();
    auth.write(&mut buffer);
    assert_eq!(
        buffer,
        vec![17, 3, 0, 0, 1, 2, 3, 4, 0x0a, 0x0b, 0x0c, 0x0d, 9, 8, 7, 6, 5, 4, 3, 2]
    );
    let (decoded, rest) = IpAuthHeader::from_slice(&buffer).unwrap();
    assert_eq!(auth, decoded);
    assert!(rest.is_empty());
}

#[test]
fn auth_header_bad_icv_len() {
    assert_eq!(IpAuthHeader::new(UDP, 0, 0, &[1, 2, 3]).unwrap_err(), ValueError::IpAuthIcvLen(3));
    assert_eq!(IpAuthHeader::new(UDP, 0, 0, &[0u8; 1020]).unwrap_err(), ValueError::IpAuthIcvLen(1020));
    assert!(IpAuthHeader::new(UDP, 0, 0, &[0u8; 1016]).is_ok());
}

#[test]
fn auth_header_zero_payload_len() {
    let buffer = [17u8, 0, 0, 0, 0, 0, 0, 0, 0, 0, 0, 0];
    assert_eq!(
        IpAuthHeader::from_slice(&buffer).unwrap_err(),
        IpAuthHeaderSliceError::Content(IpAuthHeaderError::ZeroPayloadLen)
    );
    assert_eq!(
        Ipv4Extensions::from_slice(AUTH, &buffer).unwrap_err(),
        IpAuthHeaderSliceError::Content(IpAuthHeaderError::ZeroPayloadLen)
    );
}
