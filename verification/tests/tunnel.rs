use nexo::tunnel::{
    accept_header, frame_header, header_length, HeaderError, LogicalStreamHeader, TunnelProtocol,
    MAX_HEADER_BYTES,
};

#[test]
fn invalid_identifiers_are_rejected() {
    assert_eq!(
        LogicalStreamHeader::new("", "connection").unwrap_err(),
        HeaderError::EmptyIdentifier("Tunnel ID")
    );
    assert_eq!(
        LogicalStreamHeader::new("tunnel/1", "connection").unwrap_err(),
        HeaderError::InvalidIdentifier("Tunnel ID")
    );
}

#[test]
fn protocol_names_are_stable() {
    assert_eq!(TunnelProtocol::Tcp.as_str(), "tcp");
    assert_eq!(TunnelProtocol::Https.as_str(), "https");
}

#[test]
fn logical_header_round_trip_is_length_bounded() {
    let header = LogicalStreamHeader::new("tunnel-1", "conn-1").unwrap();
    let expected = header.clone();
    let frame = frame_header(&format!("{}/{}", header.tunnel_id, header.connection_id).into_bytes())
        .unwrap();
    assert_eq!(frame[..4], [0, 0, 0, 15]);
    let length = header_length(&frame[..4].to_vec()).unwrap();
    let text = String::from_utf8(frame[4..4 + length].to_vec()).unwrap();
    let (tunnel_id, connection_id) = text.split_once('/').unwrap();
    let decoded = LogicalStreamHeader {
        version: 1,
        tunnel_id: tunnel_id.into(),
        connection_id: connection_id.into(),
    };
    assert_eq!(accept_header(Some(decoded)).unwrap(), expected);
    assert_eq!(
        frame_header(&vec![b' '; MAX_HEADER_BYTES + 1]).unwrap_err(),
        HeaderError::TooLarge
    );
}

#[test]
fn received_headers_are_checked_before_they_are_used() {
    assert_eq!(header_length(&vec![0, 0, 0, 0]).unwrap_err(), HeaderError::TooLarge);
    assert_eq!(header_length(&vec![0, 0, 32, 1]).unwrap_err(), HeaderError::TooLarge);
    assert_eq!(header_length(&vec![0, 0, 32, 0]).unwrap(), 8192);
    assert_eq!(accept_header(None).unwrap_err(), HeaderError::InvalidJson);
    let header = LogicalStreamHeader {
        version: 2,
        tunnel_id: "t".into(),
        connection_id: "c".into(),
    };
    assert_eq!(
        accept_header(Some(header)).unwrap_err(),
        HeaderError::UnsupportedVersion(2)
    );
    let long = "x".repeat(257);
    assert_eq!(
        LogicalStreamHeader::new("t", &long).unwrap_err(),
        HeaderError::IdentifierTooLong("连接 ID")
    );
}

#[test]
fn data_behind_a_header_is_left_alone() {
    let mut stream = frame_header(&b"header".to_vec()).unwrap();
    stream.extend(b"data");
    let length = header_length(&stream[..4].to_vec()).unwrap();
    assert_eq!(&stream[4..4 + length], b"header");
    assert_eq!(&stream[4 + length..], b"data");
}

#[test]
fn refused_headers_are_explained() {
    for (error, message) in [
        (HeaderError::UnsupportedVersion(2), "Tunnel 协议版本不受支持：2"),
        (HeaderError::EmptyIdentifier("Tunnel ID"), "Tunnel ID 不能为空"),
        (HeaderError::IdentifierTooLong("连接 ID"), "连接 ID 过长"),
        (HeaderError::InvalidIdentifier("Tunnel ID"), "Tunnel ID 含有不安全字符"),
        (HeaderError::TooLarge, "逻辑流首部超过限制"),
        (HeaderError::InvalidJson, "逻辑流首部 JSON 无效"),
    ] {
        assert_eq!(error.message(), message);
    }
}
