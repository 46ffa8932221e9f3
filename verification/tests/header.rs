use coap_lite::error::MessageError;
use coap_lite::header::{Header, HeaderRaw, MessageClass, MessageType, RequestType, ResponseType};

#[test]
fn test_header_codes() {
    for code in 0..255 {
        let class: MessageClass = code.into();
        let code_str = class.to_string();

        let mut header = Header::new();
        header.set_code(&code_str);

        // Reserved class could technically be many codes, so only check
        // valid items
        if !matches!(class, MessageClass::Reserved(_)) {
            assert_eq!(u8::from(class), code);
            assert_eq!(class, header.code);
            assert_eq!(code_str, header.get_code());
        }
    }
}

#[test]
fn serialize_raw_fail() {
    let h = HeaderRaw::default();
    let mut buf = Vec::with_capacity(3);
    assert_eq!(MessageError::InvalidPacketLength, h.serialize_into(&mut buf).unwrap_err());
}

#[test]
fn from_bytes_fail() {
    let b: &[u8] = &[1, 2, 3];
    assert_eq!(MessageError::InvalidPacketLength, HeaderRaw::try_from(b).unwrap_err());
}

#[test]
fn types() {
    let mut h = Header::new();
    h.set_type(MessageType::Acknowledgement);
    assert_eq!(MessageType::Acknowledgement, h.get_type());
    h.set_type(MessageType::Confirmable);
    assert_eq!(MessageType::Confirmable, h.get_type());
    h.set_type(MessageType::NonConfirmable);
    assert_eq!(MessageType::NonConfirmable, h.get_type());
    h.set_type(MessageType::Reset);
    assert_eq!(MessageType::Reset, h.get_type());
}

#[test]
fn reserved_codes_keep_their_byte() {
    for code in 0..=255u8 {
        let class = MessageClass::from(code);
        assert_eq!(u8::from(class), code);
    }
    assert_eq!(MessageClass::from(0x08), MessageClass::Reserved(0x08));
    assert_eq!(MessageClass::from(0x05), MessageClass::Request(RequestType::Fetch));
    assert_eq!(MessageClass::from(0x5F), MessageClass::Response(ResponseType::Continue));
    assert_eq!(u8::from(MessageClass::Request(RequestType::UnKnown)), 0xFF);
    assert_eq!(u8::from(MessageClass::Response(ResponseType::UnKnown)), 0xFF);
}

#[test]
fn code_byte_holds_class_and_detail() {
    let codes = [
        (MessageClass::Response(ResponseType::Created), 2, 1),
        (MessageClass::Response(ResponseType::Continue), 2, 31),
        (MessageClass::Response(ResponseType::BadRequest), 4, 0),
        (MessageClass::Response(ResponseType::RequestEntityIncomplete), 4, 8),
        (MessageClass::Response(ResponseType::RequestEntityTooLarge), 4, 13),
        (MessageClass::Response(ResponseType::TooManyRequests), 4, 29),
        (MessageClass::Response(ResponseType::InternalServerError), 5, 0),
        (MessageClass::Response(ResponseType::NotImplemented), 5, 1),
        (MessageClass::Response(ResponseType::BadGateway), 5, 2),
        (MessageClass::Response(ResponseType::ServiceUnavailable), 5, 3),
        (MessageClass::Response(ResponseType::GatewayTimeout), 5, 4),
        (MessageClass::Response(ResponseType::ProxyingNotSupported), 5, 5),
        (MessageClass::Request(RequestType::IPatch), 0, 7),
    ];
    for (class, class_code, detail_code) in codes {
        assert_eq!(u8::from(class), class_code << 5 | detail_code);
        assert_eq!(MessageClass::from(class_code << 5 | detail_code), class);
        assert_eq!(class.to_string(), format!("{}.{:02}", class_code, detail_code));
    }
    assert_eq!(u8::from(MessageClass::Response(ResponseType::InternalServerError)), 0xA0);
    assert_eq!(MessageClass::from(0x90), MessageClass::Reserved(0x90));
    let mut header = Header::new();
    header.set_code("5.00");
    assert_eq!(header.code, MessageClass::Response(ResponseType::InternalServerError));
    assert_eq!(header.get_code(), "5.00");
}

#[test]
fn code_text_has_one_digit_a_dot_and_two_digits() {
    assert_eq!(MessageClass::Response(ResponseType::Content).to_string(), "2.05");
    assert_eq!(MessageClass::Response(ResponseType::Continue).to_string(), "2.31");
    assert_eq!(MessageClass::Empty.to_string(), "0.00");
    assert_eq!(MessageClass::Reserved(0xFF).to_string(), "7.31");
    assert_eq!(coap_lite::header::parse_code("4.04"), Some(0x84));
    assert_eq!(coap_lite::header::parse_code("+4.4"), Some(0x84));
    assert_eq!(coap_lite::header::parse_code("8.00"), None);
    assert_eq!(coap_lite::header::parse_code("0.32"), None);
    assert_eq!(coap_lite::header::parse_code("404"), None);
    assert_eq!(coap_lite::header::parse_code("4.0.4"), None);
    assert_eq!(coap_lite::header::parse_code("4."), None);
    assert_eq!(coap_lite::header::parse_code("-1.02"), None);
}

#[test]
fn header_is_four_bytes_in_network_order() {
    let mut h = Header::new();
    h.set_version(1);
    h.set_type(MessageType::Acknowledgement);
    h.set_token_length(4);
    h.code = MessageClass::Response(ResponseType::Content);
    h.message_id = 0x13FD;
    let mut buf = Vec::with_capacity(4);
    assert_eq!(h.to_raw().serialize_into(&mut buf), Ok(()));
    assert_eq!(buf, vec![0x64, 0x45, 0x13, 0xFD]);
    let back = Header::from_raw(&HeaderRaw::try_from(&buf[..]).unwrap());
    assert_eq!(back, h);
    assert_eq!(back.get_version(), 1);
    assert_eq!(back.get_token_length(), 4);
}

#[test]
fn set_version_keeps_two_bits() {
    let mut h = Header::new();
    h.set_version(2);
    assert_eq!(h.get_version(), 2);
    h.set_version(7);
    assert_eq!(h.get_version(), 3);
    assert_eq!(h.get_type(), MessageType::Confirmable);
    assert_eq!(h.get_token_length(), 0);
}

#[test]
fn message_error_texts() {
    assert_eq!(MessageError::InvalidHeader.to_string(), "CoAP error: invalid header");
    assert_eq!(
        MessageError::InvalidPacketLength.to_string(),
        "CoAP error: invalid packet length, consider using BlockHandler"
    );
    assert_eq!(MessageError::InvalidTokenLength.to_string(), "CoAP error: invalid token length");
    assert_eq!(MessageError::InvalidOptionDelta.to_string(), "CoAP error: invalid option delta");
    assert_eq!(MessageError::InvalidOptionLength.to_string(), "CoAP error: invalid option length");
}
