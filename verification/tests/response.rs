use coap_lite::header::{MessageClass, MessageType, ResponseType};
use coap_lite::packet::Packet;
use coap_lite::response::CoapResponse;

#[test]
fn test_new_response_valid() {
    for mtyp in [MessageType::Confirmable, MessageType::NonConfirmable] {
        let mut packet = Packet::new();
        packet.header.set_type(mtyp);
        let opt_resp = CoapResponse::new(&packet);
        assert!(opt_resp.is_some());

        let response = opt_resp.unwrap();
        assert_eq!(packet.payload, response.message.payload);
    }
}

#[test]
fn test_new_response_invalid() {
    let mut packet = Packet::new();
    packet.header.set_type(MessageType::Acknowledgement);
    assert!(CoapResponse::new(&packet).is_none());
}

#[test]
fn response_echoes_message_id_and_token() {
    let mut packet = Packet::new();
    packet.header.message_id = 0x1234;
    packet.set_token(vec![1, 2, 3]);
    packet.payload = vec![9; 5];
    let mut response = CoapResponse::new(&packet).unwrap();
    assert_eq!(response.message.header.get_version(), 1);
    assert_eq!(response.message.header.get_type(), MessageType::Acknowledgement);
    assert_eq!(response.message.header.get_token_length(), 3);
    assert_eq!(response.message.header.message_id, 0x1234);
    assert_eq!(response.message.get_token(), &[1, 2, 3]);
    assert!(response.message.payload.is_empty());
    assert_eq!(response.message.options().len(), 0);
    assert_eq!(*response.get_status(), ResponseType::Content);
    response.set_status(ResponseType::NotFound);
    assert_eq!(response.message.header.code, MessageClass::Response(ResponseType::NotFound));
    assert_eq!(*response.get_status(), ResponseType::NotFound);
    response.message.header.code = MessageClass::Empty;
    assert_eq!(*response.get_status(), ResponseType::UnKnown);

    packet.header.set_type(MessageType::NonConfirmable);
    let response = CoapResponse::new(&packet).unwrap();
    assert_eq!(response.message.header.get_type(), MessageType::NonConfirmable);
    packet.header.set_type(MessageType::Reset);
    assert!(CoapResponse::new(&packet).is_none());
}
