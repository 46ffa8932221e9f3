use coap_lite::error::MessageError;
use coap_lite::header::{MessageClass, MessageType, RequestType, ResponseType};
use coap_lite::impl_coap_message::MessageOptionAdapter;
use coap_lite::option_value::{
    option_from_uint, option_to_uint, OptionValueString, OptionValueType, OptionValueU16,
    OptionValueU32, OptionValueU64, OptionValueU8,
};
use coap_lite::packet::{CoapOption, ContentFormat, Packet};
use coap_lite::text::decimal_string;

#[test]
fn encode_request_with_host_and_path() {
    let mut request = Packet::new();
    request.header.message_id = 23839;
    request.header.code = MessageClass::Request(RequestType::Get);
    request.set_token(vec![0, 0, 57, 116]);
    request.add_option(CoapOption::UriHost, b"localhost".to_vec());
    request.add_option(CoapOption::UriPath, b"tv1".to_vec());
    assert_eq!(
        [
            0x44, 0x01, 0x5D, 0x1F, 0x00, 0x00, 0x39, 0x74, 0x39, 0x6C, 0x6F, 0x63, 0x61, 0x6C,
            0x68, 0x6F, 0x73, 0x74, 0x83, 0x74, 0x76, 0x31,
        ],
        request.to_bytes().unwrap()[..]
    );
}

#[test]
fn decode_response_with_payload() {
    let response = Packet::from_bytes(&[
        0x64, 0x45, 0x5D, 0x1F, 0x00, 0x00, 0x39, 0x74, 0xFF, 0x48, 0x65, 0x6C, 0x6C, 0x6F, 0x20,
        0x57, 0x6F, 0x72, 0x6C, 0x64, 0x21,
    ])
    .unwrap();
    assert_eq!(23839, response.header.message_id);
    assert_eq!(MessageClass::Response(ResponseType::Content), response.header.code);
    assert_eq!(MessageType::Acknowledgement, response.header.get_type());
    assert_eq!([0, 0, 57, 116], response.get_token()[..]);
    assert_eq!(b"Hello World!", &response.payload[..]);
}

fn sample() -> Packet {
    let mut packet = Packet::new();
    packet.header.set_type(MessageType::NonConfirmable);
    packet.header.code = MessageClass::Reserved(0xC3);
    packet.header.message_id = 0xBEEF;
    packet.set_token(vec![1, 2, 3, 4, 5, 6, 7, 8]);
    packet.add_option(CoapOption::Unknown(0), vec![]);
    packet.add_option(CoapOption::IfMatch, vec![0xAA; 12]);
    packet.add_option(CoapOption::IfMatch, vec![0xBB; 13]);
    packet.add_option(CoapOption::UriPath, vec![0xCC; 268]);
    packet.add_option(CoapOption::UriPath, vec![0xDD; 269]);
    packet.add_option(CoapOption::Unknown(24), vec![1]);
    packet.add_option(CoapOption::Unknown(293), vec![2]);
    packet.add_option(CoapOption::Unknown(65535), vec![0xEE; 1000]);
    packet.payload = vec![0xFF, 0x00, 0xFF];
    packet
}

#[test]
fn round_trip_keeps_the_message() {
    let packet = sample();
    let bytes = packet.to_bytes_unlimited().unwrap();
    let back = Packet::from_bytes(&bytes).unwrap();
    assert_eq!(back, packet);
    assert_eq!(back.to_bytes_unlimited().unwrap(), bytes);
}

#[test]
fn round_trip_drops_only_emptied_options() {
    let mut packet = sample();
    packet.clear_option(CoapOption::UriPath);
    assert_eq!(packet.options().len(), 6);
    let back = Packet::from_bytes(&packet.to_bytes_unlimited().unwrap()).unwrap();
    assert_eq!(back.options().len(), 5);
    assert_eq!(back.get_option(CoapOption::UriPath), None);
    assert_eq!(back.get_option(CoapOption::IfMatch), packet.get_option(CoapOption::IfMatch));
    assert_eq!(back.get_option(CoapOption::Unknown(65535)), Some(&vec![vec![0xEE; 1000]]));
    assert_eq!(back.payload, packet.payload);
    assert_eq!(back.header, packet.header);
}

#[test]
fn field_extensions_at_their_boundaries() {
    let mut packet = Packet::new();
    packet.add_option(CoapOption::Unknown(12), vec![0; 12]);
    // delta 13, length 13: one extension byte each, both 0
    packet.add_option(CoapOption::Unknown(25), vec![1; 13]);
    // delta 268, length 268: one extension byte each, both 255
    packet.add_option(CoapOption::Unknown(293), vec![2; 268]);
    // delta 269, length 269: two extension bytes each, both 0
    packet.add_option(CoapOption::Unknown(562), vec![3; 269]);
    let bytes = packet.to_bytes_unlimited().unwrap();
    let mut expected = vec![0x40, 0x01, 0x00, 0x00];
    expected.push(0xCC);
    expected.extend([0u8; 12]);
    expected.extend([0xDD, 0x00, 0x00]);
    expected.extend([1u8; 13]);
    expected.extend([0xDD, 0xFF, 0xFF]);
    expected.extend([2u8; 268]);
    expected.extend([0xEE, 0x00, 0x00, 0x00, 0x00]);
    expected.extend([3u8; 269]);
    assert_eq!(bytes, expected);
    assert_eq!(Packet::from_bytes(&bytes).unwrap(), packet);
}

#[test]
fn option_value_of_the_greatest_length() {
    let mut packet = Packet::new();
    packet.add_option(CoapOption::Unknown(1), vec![7; 65804]);
    let bytes = packet.to_bytes_unlimited().unwrap();
    assert_eq!(bytes[4..7], [0x1E, 0xFF, 0xFF]);
    assert_eq!(bytes.len(), 4 + 3 + 65804);
    assert_eq!(Packet::from_bytes(&bytes).unwrap(), packet);
}

#[test]
fn empty_code_writes_no_payload() {
    let mut packet = Packet::new();
    packet.header.code = MessageClass::Empty;
    packet.payload = vec![1, 2, 3];
    assert_eq!(packet.to_bytes().unwrap(), vec![0x40, 0x00, 0x00, 0x00]);
    // what is not written does not count against the limit
    packet.payload = vec![0; 5000];
    assert_eq!(packet.to_bytes().unwrap().len(), 4);
    packet.header.code = MessageClass::Request(RequestType::Get);
    packet.payload = vec![];
    assert_eq!(packet.to_bytes().unwrap(), vec![0x40, 0x01, 0x00, 0x00]);
}

#[test]
fn limit_is_on_the_encoded_size() {
    let mut packet = Packet::new();
    packet.payload = vec![0u8; 1275];
    assert_eq!(packet.to_bytes().unwrap().len(), 1280);
    assert_eq!(packet.to_bytes_with_limit(1279), Err(MessageError::InvalidPacketLength));
    packet.payload = vec![0u8; 1276];
    assert_eq!(packet.to_bytes(), Err(MessageError::InvalidPacketLength));
    assert_eq!(packet.to_bytes_with_limit(1281).unwrap().len(), 1281);
    assert_eq!(packet.to_bytes_with_limit(0), Err(MessageError::InvalidPacketLength));
}

#[test]
fn decode_faults() {
    let decode = |bytes: &[u8]| Packet::from_bytes(bytes).unwrap_err();
    assert_eq!(decode(&[]), MessageError::InvalidHeader);
    assert_eq!(decode(&[0x40, 0x01, 0x00]), MessageError::InvalidHeader);
    // token length 9
    assert_eq!(decode(&[0x49, 1, 0, 0, 1, 2, 3, 4, 5, 6, 7, 8, 9]), MessageError::InvalidTokenLength);
    // token length 2 with one byte behind the header
    assert_eq!(decode(&[0x42, 1, 0, 0, 1]), MessageError::InvalidTokenLength);
    // delta nibble 15 that is no payload marker
    assert_eq!(decode(&[0x40, 1, 0, 0, 0xF0]), MessageError::InvalidOptionDelta);
    // length nibble 15
    assert_eq!(decode(&[0x40, 1, 0, 0, 0x0F]), MessageError::InvalidOptionLength);
    // missing extension bytes
    assert_eq!(decode(&[0x40, 1, 0, 0, 0xD0]), MessageError::InvalidOptionLength);
    assert_eq!(decode(&[0x40, 1, 0, 0, 0xE0, 0x00]), MessageError::InvalidOptionLength);
    assert_eq!(decode(&[0x40, 1, 0, 0, 0x0D]), MessageError::InvalidOptionLength);
    assert_eq!(decode(&[0x40, 1, 0, 0, 0x0E, 0x00]), MessageError::InvalidOptionLength);
    // value longer than what is left
    assert_eq!(decode(&[0x40, 1, 0, 0, 0x02, 0x00]), MessageError::InvalidOptionLength);
    // the delta is looked at before the length
    assert_eq!(decode(&[0x40, 1, 0, 0, 0xFE]), MessageError::InvalidOptionDelta);
}

#[test]
fn decode_accepts_what_it_need_not_understand() {
    // version 3, type Reset, a code that is not registered, a marker without payload
    let packet = Packet::from_bytes(&[0xF0, 0xE7, 0xFF, 0xFF, 0xFF]).unwrap();
    assert_eq!(packet.header.get_version(), 3);
    assert_eq!(packet.header.get_type(), MessageType::Reset);
    assert_eq!(packet.header.code, MessageClass::Reserved(0xE7));
    assert_eq!(packet.header.message_id, 0xFFFF);
    assert!(packet.payload.is_empty());
    // options in one entry per number, values in their order; delta 0 first
    let packet = Packet::from_bytes(&[0x40, 1, 0, 0, 0x01, 0xAA, 0x01, 0xBB, 0x10, 0x00]).unwrap();
    assert_eq!(packet.options().len(), 2);
    assert_eq!(packet.get_option(CoapOption::Unknown(0)), Some(&vec![vec![0xAA], vec![0xBB]]));
    assert_eq!(packet.get_option(CoapOption::IfMatch), Some(&vec![vec![], vec![]]));
}

#[test]
fn options_are_kept_in_ascending_order() {
    let mut packet = Packet::new();
    packet.add_option(CoapOption::Size1, vec![1]);
    packet.add_option(CoapOption::IfMatch, vec![2]);
    packet.add_option(CoapOption::Block1, vec![3]);
    packet.add_option(CoapOption::Size2, vec![4]);
    packet.add_option(CoapOption::IfMatch, vec![5]);
    let numbers: Vec<u16> =
        (0..packet.options().len()).map(|i| packet.options().number_at(i)).collect();
    assert_eq!(numbers, vec![1, 27, 28, 60]);
    assert_eq!(packet.options().values_at(0), &vec![vec![2], vec![5]]);

    let mut walk = MessageOptionAdapter::new(&packet);
    let mut seen = Vec::new();
    while let Some(option) = walk.next() {
        seen.push((option.number(), option.value().to_vec()));
    }
    assert_eq!(
        seen,
        vec![(1, vec![2]), (1, vec![5]), (27, vec![3]), (28, vec![4]), (60, vec![1])]
    );
    assert!(walk.next().is_none());

    packet.clear_option(CoapOption::IfMatch);
    packet.set_option(CoapOption::Size2, vec![vec![8], vec![9]]);
    let mut walk = MessageOptionAdapter::new(&packet);
    let mut seen = Vec::new();
    while let Some(option) = walk.next() {
        seen.push((option.number(), option.value().to_vec()));
    }
    assert_eq!(seen, vec![(27, vec![3]), (28, vec![8]), (28, vec![9]), (60, vec![1])]);
    packet.clear_all_options();
    assert_eq!(packet.options().len(), 0);
    assert!(MessageOptionAdapter::new(&packet).next().is_none());
}

#[test]
fn unsigned_option_values_are_minimal() {
    assert_eq!(option_from_uint(0, 4), Vec::<u8>::new());
    assert_eq!(option_from_uint(1, 4), vec![1]);
    assert_eq!(option_from_uint(255, 4), vec![255]);
    assert_eq!(option_from_uint(256, 4), vec![1, 0]);
    assert_eq!(option_from_uint(0x01_00_00, 4), vec![1, 0, 0]);
    assert_eq!(option_from_uint(u32::MAX as u64, 4), vec![255; 4]);
    assert_eq!(option_from_uint(u64::MAX, 8), vec![255; 8]);
    assert_eq!(OptionValueU8(7).into_bytes(), vec![7]);
    assert_eq!(OptionValueU16(0x0102).into_bytes(), vec![1, 2]);
    assert_eq!(OptionValueU32(0x010203).into_bytes(), vec![1, 2, 3]);
    assert_eq!(OptionValueU64(0).into_bytes(), Vec::<u8>::new());
}

#[test]
fn unsigned_option_values_are_read_at_any_length() {
    assert_eq!(option_to_uint(&[], 4), Ok(0));
    assert_eq!(option_to_uint(&[0, 0, 1, 2], 4), Ok(258));
    assert_eq!(option_to_uint(&[1, 2, 3, 4, 5, 6, 7, 8], 8), Ok(0x0102030405060708));
    assert_eq!(option_to_uint(&[1, 2, 3, 4, 5, 6, 7, 8, 9], 9), Ok(0x0203040506070809));
    let e = option_to_uint(&[1, 2, 3], 2).unwrap_err();
    assert_eq!(e.message, "overflow: got 3 bytes, expected 2");
    assert_eq!(e.to_string(), "Incompatible option value: overflow: got 3 bytes, expected 2");
    assert_eq!(OptionValueU8::try_from_bytes(vec![0x80]), Ok(OptionValueU8(0x80)));
    assert!(OptionValueU8::try_from_bytes(vec![0, 1]).is_err());
    assert_eq!(OptionValueU16::try_from_bytes(vec![0, 1]), Ok(OptionValueU16(1)));
    assert!(OptionValueU16::try_from_bytes(vec![0, 0, 1]).is_err());
    assert_eq!(OptionValueU32::try_from_bytes(vec![1, 0, 0, 0]), Ok(OptionValueU32(1 << 24)));
    assert!(OptionValueU32::try_from_bytes(vec![0; 5]).is_err());
    assert_eq!(OptionValueU64::try_from_bytes(vec![0xFF; 8]), Ok(OptionValueU64(u64::MAX)));
    assert!(OptionValueU64::try_from_bytes(vec![0; 9]).is_err());
}

#[test]
fn string_option_values_are_utf8() {
    assert_eq!(OptionValueString("né".to_owned()).into_bytes(), vec![0x6E, 0xC3, 0xA9]);
    assert_eq!(
        OptionValueString::try_from_bytes(vec![0x6E, 0xC3, 0xA9]),
        Ok(OptionValueString("né".to_owned()))
    );
    let e = OptionValueString::try_from_bytes(vec![0x6E, 0xC3]).unwrap_err();
    assert_eq!(e.message, String::from_utf8(vec![0x6E, 0xC3]).unwrap_err().to_string());
}

#[test]
fn typed_option_access() {
    let mut packet = Packet::new();
    packet.set_options_as(CoapOption::MaxAge, vec![OptionValueU32(60), OptionValueU32(0x10000)]);
    assert_eq!(packet.get_option(CoapOption::MaxAge), Some(&vec![vec![60], vec![1, 0, 0]]));
    assert_eq!(
        packet.get_first_option_as::<OptionValueU32>(CoapOption::MaxAge),
        Some(Ok(OptionValueU32(60)))
    );
    let decoded = packet.get_options_as::<OptionValueU16>(CoapOption::MaxAge).unwrap();
    assert_eq!(decoded.len(), 2);
    assert_eq!(decoded[0], Ok(OptionValueU16(60)));
    assert!(decoded[1].is_err());
    assert_eq!(packet.get_options_as::<OptionValueU16>(CoapOption::Accept), None);
    packet.clear_option(CoapOption::MaxAge);
    assert_eq!(packet.get_first_option(CoapOption::MaxAge), None);
    assert_eq!(packet.get_options_as::<OptionValueU16>(CoapOption::MaxAge), Some(vec![]));
}

#[test]
fn content_formats() {
    assert_eq!(usize::from(ContentFormat::ApplicationLinkFormat), 40);
    assert_eq!(usize::from(ContentFormat::ApplicationCBOR), 60);
    assert_eq!(ContentFormat::try_from(50), Ok(ContentFormat::ApplicationJSON));
    assert_eq!(ContentFormat::try_from(30000), Ok(ContentFormat::ImageSvgXml));
    assert!(ContentFormat::try_from(1).is_err());
    assert_eq!(ContentFormat::try_from(1).unwrap_err().to_string(), "CoAP error: invalid content-format number");
    for number in 0..70000usize {
        if let Ok(format) = ContentFormat::try_from(number) {
            assert_eq!(usize::from(format), number);
        }
    }
    let mut packet = Packet::new();
    packet.set_content_format(ContentFormat::ApplicationVndOmaLwm2mCbor);
    assert_eq!(packet.get_option(CoapOption::ContentFormat), Some(&vec![vec![0x2D, 0x18]]));
    // a number that is not registered, and a value that is too long
    packet.clear_option(CoapOption::ContentFormat);
    packet.add_option(CoapOption::ContentFormat, vec![1]);
    assert_eq!(packet.get_content_format(), None);
    packet.clear_option(CoapOption::ContentFormat);
    packet.add_option(CoapOption::ContentFormat, vec![0, 0, 0]);
    assert_eq!(packet.get_content_format(), None);
}

#[test]
fn option_numbers() {
    assert_eq!(u16::from(CoapOption::NoResponse), 258);
    assert_eq!(u16::from(CoapOption::Size2), 28);
    assert_eq!(CoapOption::from(60), CoapOption::Size1);
    assert_eq!(CoapOption::from(2), CoapOption::Unknown(2));
    for number in 0..=u16::MAX {
        assert_eq!(u16::from(CoapOption::from(number)), number);
    }
}

#[test]
fn observe_value() {
    let mut packet = Packet::new();
    packet.set_observe_value(0x0102);
    packet.set_observe_value(0x010203);
    assert_eq!(packet.get_option(CoapOption::Observe), Some(&vec![vec![1, 2, 3]]));
    assert_eq!(packet.get_observe_value(), Some(Ok(0x010203)));
    packet.set_observe(vec![0; 5]);
    let e = packet.get_observe_value().unwrap().unwrap_err();
    assert_eq!(e.message, "overflow: got 5 bytes, expected 4");
}

#[test]
fn numbers_in_decimal() {
    assert_eq!(decimal_string(0), "0");
    assert_eq!(decimal_string(9), "9");
    assert_eq!(decimal_string(10), "10");
    assert_eq!(decimal_string(65804), "65804");
    assert_eq!(decimal_string(u128::MAX), u128::MAX.to_string());
}
