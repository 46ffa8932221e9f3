use coap_lite::error::MessageError;
use coap_lite::header::{MessageClass, MessageType, RequestType, ResponseType};
use coap_lite::option_value::{OptionValueString, OptionValueU32};
use coap_lite::packet::{CoapOption, ContentFormat, ObserveOption, Packet};

#[test]
fn test_decode_packet_with_options() {
    let buf = [
        0x44, 0x01, 0x84, 0x9e, 0x51, 0x55, 0x77, 0xe8, 0xb2, 0x48, 0x69, 0x04, 0x54, 0x65, 0x73,
        0x74, 0x43, 0x61, 0x3d, 0x31,
    ];
    let packet = Packet::from_bytes(&buf);
    assert!(packet.is_ok());
    let packet = packet.unwrap();
    assert_eq!(packet.header.get_version(), 1);
    assert_eq!(packet.header.get_type(), MessageType::Confirmable);
    assert_eq!(packet.header.get_token_length(), 4);
    assert_eq!(packet.header.code, MessageClass::Request(RequestType::Get));
    assert_eq!(packet.header.message_id, 33950);
    assert_eq!(*packet.get_token(), vec![0x51, 0x55, 0x77, 0xE8]);
    assert_eq!(packet.options.len(), 2);

    let uri_path = packet.get_option(CoapOption::UriPath);
    assert!(uri_path.is_some());
    let uri_path = uri_path.unwrap();
    let mut expected_uri_path = Vec::new();
    expected_uri_path.push("Hi".as_bytes().to_vec());
    expected_uri_path.push("Test".as_bytes().to_vec());
    assert_eq!(*uri_path, expected_uri_path);

    let uri_query = packet.get_option(CoapOption::UriQuery);
    assert!(uri_query.is_some());
    let uri_query = uri_query.unwrap();
    let mut expected_uri_query = Vec::new();
    expected_uri_query.push("a=1".as_bytes().to_vec());
    assert_eq!(*uri_query, expected_uri_query);
}

#[test]
fn test_decode_packet_with_payload() {
    let buf = [
        0x64, 0x45, 0x13, 0xFD, 0xD0, 0xE2, 0x4D, 0xAC, 0xFF, 0x48, 0x65, 0x6C, 0x6C, 0x6F,
    ];
    let packet = Packet::from_bytes(&buf);
    assert!(packet.is_ok());
    let packet = packet.unwrap();
    assert_eq!(packet.header.get_version(), 1);
    assert_eq!(packet.header.get_type(), MessageType::Acknowledgement);
    assert_eq!(packet.header.get_token_length(), 4);
    assert_eq!(packet.header.code, MessageClass::Response(ResponseType::Content));
    assert_eq!(packet.header.message_id, 5117);
    assert_eq!(*packet.get_token(), vec![0xD0, 0xE2, 0x4D, 0xAC]);
    assert_eq!(packet.payload, "Hello".as_bytes().to_vec());
}

#[test]
fn test_encode_packet_with_options() {
    let mut packet = Packet::new();
    packet.header.set_version(1);
    packet.header.set_type(MessageType::Confirmable);
    packet.header.code = MessageClass::Request(RequestType::Get);
    packet.header.message_id = 33950;
    packet.set_token(vec![0x51, 0x55, 0x77, 0xE8]);
    packet.add_option(CoapOption::UriPath, b"Hi".to_vec());
    packet.add_option(CoapOption::UriPath, b"Test".to_vec());
    packet.add_option(CoapOption::UriQuery, b"a=1".to_vec());
    assert_eq!(
        packet.to_bytes().unwrap(),
        vec![
            0x44, 0x01, 0x84, 0x9e, 0x51, 0x55, 0x77, 0xe8, 0xb2, 0x48, 0x69, 0x04, 0x54, 0x65,
            0x73, 0x74, 0x43, 0x61, 0x3d, 0x31
        ]
    );
}

#[test]
fn test_encode_packet_with_payload() {
    let mut packet = Packet::new();
    packet.header.set_version(1);
    packet.header.set_type(MessageType::Acknowledgement);
    packet.header.code = MessageClass::Response(ResponseType::Content);
    packet.header.message_id = 5117;
    packet.set_token(vec![0xD0, 0xE2, 0x4D, 0xAC]);
    packet.payload = "Hello".as_bytes().to_vec();
    assert_eq!(
        packet.to_bytes().unwrap(),
        vec![0x64, 0x45, 0x13, 0xFD, 0xD0, 0xE2, 0x4D, 0xAC, 0xFF, 0x48, 0x65, 0x6C, 0x6C, 0x6F]
    );
}

#[test]
fn test_encode_decode_content_format() {
    let mut packet = Packet::new();
    packet.set_content_format(ContentFormat::TextPlain);
    assert_eq!(ContentFormat::TextPlain, packet.get_content_format().unwrap())
}

#[test]
fn test_encode_decode_content_format_without_msb() {
    let mut packet = Packet::new();
    packet.set_content_format(ContentFormat::ApplicationJSON);
    assert_eq!(ContentFormat::ApplicationJSON, packet.get_content_format().unwrap())
}

#[test]
fn test_encode_decode_content_format_with_msb() {
    let mut packet = Packet::new();
    packet.set_content_format(ContentFormat::ApplicationSensmlXML);
    assert_eq!(ContentFormat::ApplicationSensmlXML, packet.get_content_format().unwrap())
}

#[test]
fn test_decode_empty_content_format() {
    let packet = Packet::new();
    assert!(packet.get_content_format().is_none());
}

#[test]
fn option() {
    for i in 0..512 {
        assert_eq!(i, u16::from(CoapOption::from(i)));
    }
}

#[test]
fn content_format() {
    for i in 0..512 {
        if let Ok(o) = ContentFormat::try_from(i) {
            assert_eq!(i, usize::from(o));
        }
    }
}

#[test]
fn observe_option() {
    for i in 0..8 {
        if let Ok(o) = ObserveOption::try_from(i) {
            assert_eq!(i, usize::from(o));
        }
    }
}

#[test]
fn options() {
    let mut p = Packet::new();
    p.add_option(CoapOption::UriHost, vec![0]);
    p.add_option(CoapOption::UriPath, vec![1]);
    p.add_option(CoapOption::ETag, vec![2]);
    p.clear_option(CoapOption::ETag);
    assert_eq!(3, p.options().len());

    let bytes = p.to_bytes().unwrap();
    let mut pp = Packet::from_bytes(&bytes).unwrap();
    assert_eq!(2, pp.options().len());

    let mut values = Vec::new();
    values.push(vec![3]);
    values.push(vec![4]);
    pp.set_option(CoapOption::Oscore, values);
    assert_eq!(3, pp.options().len());
}

#[test]
fn test_option_u32_format() {
    let mut p = Packet::new();
    let option_key = CoapOption::Observe;
    let values = vec![0, 100, 1000, 10000, u32::MAX];
    for &value in &values {
        p.add_option_as(option_key, OptionValueU32(value));
    }
    let expected = values.iter().map(|&x| Ok(OptionValueU32(x))).collect();
    let actual = p.get_options_as::<OptionValueU32>(option_key);
    assert_eq!(actual, Some(expected));
}

#[test]
fn test_option_utf8_format() {
    let mut p = Packet::new();
    let option_key = CoapOption::UriPath;
    let values = vec!["", "simple", "unicode 😁 stuff"];
    for &value in &values {
        p.add_option_as(option_key, OptionValueString(value.to_owned()));
    }
    let expected = values.iter().map(|&x| Ok(OptionValueString(x.to_owned()))).collect();
    let actual = p.get_options_as::<OptionValueString>(option_key);
    assert_eq!(actual, Some(expected));
}

#[test]
fn observe() {
    let mut p = Packet::new();
    assert_eq!(None, p.get_observe_value());
    p.set_observe_value(0);
    assert_eq!(Some(Ok(0)), p.get_observe_value());
}

#[test]
fn to_bytes_limits_work() {
    let mut packet = Packet::new();

    packet.payload = vec![0u8; 1200];
    assert!(packet.to_bytes().is_ok());

    packet.payload = vec![0u8; 1300];
    assert_eq!(packet.to_bytes(), Err(MessageError::InvalidPacketLength));
    assert!(packet.to_bytes_with_limit(1380).is_ok());
    assert!(packet.to_bytes_unlimited().is_ok());
}

#[test]
fn option_delta_u8_overflow() {
    // Build a packet with options 1 and 258, which have a delta of 257.
    // Although 257 does not fit into a u8, it does fit into the
    // 1-byte extended option delta, because that is biased by 13.
    let mut input = Packet::new();
    let option_1 = CoapOption::IfMatch;
    let option_258 = CoapOption::NoResponse;

    input.add_option(option_1, vec![0]);
    input.add_option(option_258, vec![1]);
    let bytes = input.to_bytes().unwrap();

    // Verify everything round-trips
    let output = Packet::from_bytes(&bytes).unwrap();
    assert_eq!(output.options().len(), 2);
    assert_eq!(output.get_first_option(option_1), Some(vec![0]).as_ref());
    assert_eq!(output.get_first_option(option_258), Some(vec![1]).as_ref());
}

#[test]
fn reject_excessive_option_delta() {
    // The 2-byte extended option delta field is biased by 269, and
    // therefore can represent values as high as 0x1_010C. Deltas
    // larger than 0x0_FFFF are illegal and should be rejected.
    let bytes = [
        // header
        0x40, 0x01, 0x00, 0x00, // option delta = 0x1_0000, option length = 0
        0xe0, 0xfe, 0xf3,
    ];

    let result = Packet::from_bytes(&bytes);
    assert_eq!(result, Err(MessageError::InvalidOptionDelta));
}

#[test]
fn reject_excessive_option_number() {
    // It's possible to arrive at an option number > 0xFFFF by
    // adding deltas. Option numbers > 0xFFFF are illegal and
    // should be rejected.
    let bytes = [
        // header
        0x40, 0x01, 0x00, 0x00, // option delta = 0xFFFF, option length = 0
        0xe0, 0xfe, 0xf2, // option delta = 0x01, option length = 0
        0x10,
    ];

    let result = Packet::from_bytes(&bytes);
    assert_eq!(result, Err(MessageError::InvalidOptionDelta));
}
