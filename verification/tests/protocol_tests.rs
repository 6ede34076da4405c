use someip::someip_codec::{
    read_header, CodecError, HeaderError, MessageType, ReturnCode, SomeIPCodec, SomeIpHeader,
    SomeIpPacket, TpHeader,
};

fn request_header() -> SomeIpHeader {
    let mut h = SomeIpHeader::default();
    h.set_service_id(0x1234);
    h.set_event_id(0x0001);
    h.request_id = 0x0102_0304;
    h.interface_version = 1;
    h
}

#[test]
fn header_ids() {
    let h = request_header();
    assert_eq!(h.message_id, 0x1234_8001);
    assert_eq!(h.service_id(), 0x1234);
    assert!(!h.is_someip_sd());
    let mut sd = SomeIpHeader::default();
    sd.message_id = 0xFFFF_8100;
    assert!(sd.is_someip_sd());
}

#[test]
fn packet_length_covers_payload() {
    let p = SomeIpPacket::new(request_header(), vec![1, 2, 3]);
    assert_eq!(p.header().length, 11);
    let mut h = request_header();
    h.tp_header = Some(TpHeader { offset: 32, more_segment: true });
    let p = SomeIpPacket::new(h, vec![1, 2, 3]);
    assert_eq!(p.header().length, 15);
}

#[test]
fn codec_encode_then_decode() {
    let mut codec = SomeIPCodec::new(100);
    let packet = SomeIpPacket::new(request_header(), vec![9, 8, 7]);
    let mut buf = vec![];
    codec.encode(packet.clone(), &mut buf).unwrap();
    assert_eq!(
        buf,
        vec![0x12, 0x34, 0x80, 0x01, 0, 0, 0, 11, 1, 2, 3, 4, 1, 1, 0, 0, 9, 8, 7]
    );
    buf.push(0xAA);
    let decoded = codec.decode(&mut buf).unwrap().unwrap();
    assert_eq!(decoded, packet);
    assert_eq!(buf, vec![0xAA]);
}

#[test]
fn codec_tp_header_roundtrip() {
    let mut codec = SomeIPCodec::default();
    let mut h = request_header();
    h.tp_header = Some(TpHeader { offset: 0x30, more_segment: true });
    let packet = SomeIpPacket::new(h, vec![5]);
    let mut buf = vec![];
    codec.encode(packet.clone(), &mut buf).unwrap();
    assert_eq!(buf.len(), 21);
    let decoded = codec.decode(&mut buf).unwrap().unwrap();
    assert_eq!(decoded.header().tp_header, Some(TpHeader { offset: 0x30, more_segment: true }));
    assert_eq!(decoded.payload(), &vec![5]);
    assert!(buf.is_empty());
}

#[test]
fn codec_waits_for_whole_frame() {
    let mut codec = SomeIPCodec::new(100);
    let mut buf = vec![0x12, 0x34, 0x80, 0x01, 0, 0, 0, 11, 1, 2];
    assert_eq!(codec.decode(&mut buf).unwrap(), None);
    assert_eq!(buf.len(), 10);
    let mut short = vec![1, 2, 3];
    assert_eq!(codec.decode(&mut short).unwrap(), None);
}

#[test]
fn codec_refuses_oversized_length() {
    let mut codec = SomeIPCodec::new(10);
    let mut buf = vec![0x12, 0x34, 0x80, 0x01, 0, 0, 0, 11, 1, 2, 3, 4, 1, 1, 0, 0, 9, 8, 7];
    assert_eq!(codec.decode(&mut buf), Err(CodecError::OutOfMemory));
}

#[test]
fn codec_reports_invalid_header() {
    let mut codec = SomeIPCodec::new(100);
    let mut buf = vec![0x12, 0x34, 0x80, 0x01, 0, 0, 0, 8, 1, 2, 3, 4, 2, 1, 0, 0];
    assert_eq!(
        codec.decode(&mut buf),
        Err(CodecError::InvalidHeader(HeaderError::UnsupportedProtocolVersion(2)))
    );
    assert!(buf.is_empty());
}

#[test]
fn read_header_errors() {
    assert_eq!(read_header(&[0u8; 4]), Err(HeaderError::UnexpectedEndOfSlice(4)));
    let bytes = [0x12, 0x34, 0x80, 0x01, 0, 0, 0, 8, 1, 2, 3, 4, 1, 1, 0x13, 0];
    assert_eq!(read_header(&bytes), Err(HeaderError::UnknownMessageType(0x13)));
    let bytes = [0x12, 0x34, 0x80, 0x01, 0, 0, 0, 7, 1, 2, 3, 4, 1, 1, 0, 0];
    assert_eq!(read_header(&bytes), Err(HeaderError::LengthFieldTooSmall(7)));
}

#[test]
fn read_header_fields() {
    let bytes = [0x12, 0x34, 0x80, 0x01, 0, 0, 0, 8, 1, 2, 3, 4, 1, 1, 0x02, 0x04];
    let h = read_header(&bytes).unwrap();
    assert_eq!(h.message_id, 0x1234_8001);
    assert_eq!(h.request_id, 0x0102_0304);
    assert_eq!(h.interface_version, 1);
    assert_eq!(h.message_type, MessageType::Notification);
    assert_eq!(h.return_code, 4);
    assert_eq!(h.tp_header, None);
}

#[test]
fn error_and_reply_packets() {
    let req = SomeIpPacket::new(request_header(), vec![1, 2]);
    let err = SomeIpPacket::error_packet_from(req.clone(), ReturnCode::UnknownMethod);
    assert_eq!(err.header().message_type, MessageType::Error);
    assert_eq!(err.header().return_code, 0x03);
    assert_eq!(err.header().request_id, 0x0102_0304);
    assert_eq!(err.header().length, 8);
    assert!(err.payload().is_empty());
    let rep = SomeIpPacket::reply_packet_from(req, ReturnCode::EOk);
    assert_eq!(rep.header().message_type, MessageType::Response);
    assert_eq!(rep.header().return_code, 0);
    assert!(rep.is_expected_by_client());
    assert!(!err.is_expected_by_client());
}

#[test]
fn return_code_values() {
    assert_eq!(ReturnCode::NotOk.code(), 0x01);
    assert_eq!(ReturnCode::WrongMessageType.code(), 0x0a);
    assert_eq!(ReturnCode::Generic(0x15).code(), 0x15);
    assert_eq!(ReturnCode::InterfaceError(0x25).code(), 0x25);
}

#[test]
fn header_mut_changes_header_only() {
    let mut p = SomeIpPacket::new(request_header(), vec![4]);
    p.header_mut().message_type = MessageType::RequestNoReturn;
    assert_eq!(p.header().message_type, MessageType::RequestNoReturn);
    assert_eq!(p.payload(), &vec![4]);
}
