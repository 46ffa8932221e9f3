use coap_lite::error::{HandlingError, InvalidObserve};
use coap_lite::header::{MessageClass, MessageType, RequestType as Method, ResponseType};
use coap_lite::packet::{CoapOption, ContentFormat, ObserveOption, Packet};
use coap_lite::request::CoapRequest;

struct Endpoint(String);

#[test]
fn test_request_create() {
    let mut packet = Packet::new();
    let mut request1: CoapRequest<Endpoint> = CoapRequest::new();

    packet.set_token(vec![0x17, 0x38]);
    request1.message.set_token(vec![0x17, 0x38]);

    packet.add_option(CoapOption::UriPath, b"test-interface".to_vec());
    request1.message.add_option(CoapOption::UriPath, b"test-interface".to_vec());

    packet.header.message_id = 42;
    request1.message.header.message_id = 42;

    packet.header.set_version(2);
    request1.message.header.set_version(2);

    packet.header.set_type(MessageType::Confirmable);
    request1.message.header.set_type(MessageType::Confirmable);

    packet.header.set_code("0.04");
    request1.message.header.set_code("0.04");

    let endpoint = Endpoint(String::from("127.0.0.1:1234"));
    let request2 = CoapRequest::from_packet(packet, endpoint);

    assert_eq!(request1.message.to_bytes().unwrap(), request2.message.to_bytes().unwrap());
}

#[test]
fn test_method() {
    let mut request: CoapRequest<Endpoint> = CoapRequest::new();

    request.message.header.set_code("0.01");
    assert_eq!(&Method::Get, request.get_method());

    request.message.header.set_code("0.02");
    assert_eq!(&Method::Post, request.get_method());

    request.message.header.set_code("0.03");
    assert_eq!(&Method::Put, request.get_method());

    request.message.header.set_code("0.04");
    assert_eq!(&Method::Delete, request.get_method());

    request.message.header.set_code("0.06");
    assert_eq!(&Method::Patch, request.get_method());

    request.set_method(Method::Get);
    assert_eq!("0.01", request.message.header.get_code());

    request.set_method(Method::Post);
    assert_eq!("0.02", request.message.header.get_code());

    request.set_method(Method::Put);
    assert_eq!("0.03", request.message.header.get_code());

    request.set_method(Method::Delete);
    assert_eq!("0.04", request.message.header.get_code());

    request.set_method(Method::IPatch);
    assert_eq!("0.07", request.message.header.get_code());
}

#[test]
fn test_path() {
    let mut request: CoapRequest<Endpoint> = CoapRequest::new();

    let path = "test-interface";
    request.message.add_option(CoapOption::UriPath, path.as_bytes().to_vec());
    assert_eq!(path, request.get_path());

    let path2 = "test-interface2";
    request.set_path(path2);
    assert_eq!(
        path2.as_bytes().to_vec(),
        *request.message.get_option(CoapOption::UriPath).unwrap().first().unwrap()
    );

    request.set_path("/test-interface2");
    assert_eq!(
        path2.as_bytes().to_vec(),
        *request.message.get_option(CoapOption::UriPath).unwrap().first().unwrap()
    );

    let path3 = "test-interface2/";
    request.set_path(path3);
    assert_eq!(path3, request.get_path());
}

#[test]
fn test_path_as_vec() {
    let mut request: CoapRequest<Endpoint> = CoapRequest::new();

    let path = "test-interface";
    request.message.add_option(CoapOption::UriPath, path.as_bytes().to_vec());
    assert_eq!(Ok(vec![path.to_string()]), request.get_path_as_vec());

    request.set_path("/test-interface/second/third");
    assert_eq!(
        Ok(["test-interface", "second", "third"].map(|x| x.to_string()).to_vec()),
        request.get_path_as_vec()
    );

    let bogus_path: Vec<u8> = vec![0xfe, 0xfe, 0xff, 0xff];
    request.message.clear_option(CoapOption::UriPath);
    request.message.add_option(CoapOption::UriPath, bogus_path);
    request.get_path_as_vec().expect_err("must be a utf-8 decoding error");
}

#[test]
fn test_unknown_observe_flag() {
    let mut request: CoapRequest<Endpoint> = CoapRequest::new();

    request.message.set_observe_value(32);
    let expected = Some(Err(InvalidObserve));
    let actual = request.get_observe_flag();
    assert_eq!(actual, expected);
}

#[test]
fn test_garbage_in_observe_field() {
    let mut request: CoapRequest<Endpoint> = CoapRequest::new();

    request.message.add_option(CoapOption::Observe, b"bunch of nonsense".to_vec());
    let expected = Some(Err(InvalidObserve));
    let actual = request.get_observe_flag();
    assert_eq!(actual, expected);
}

#[test]
fn path_segments_follow_the_slashes() {
    let mut request: CoapRequest<Endpoint> = CoapRequest::new();
    request.set_path("");
    assert_eq!(request.message.get_option(CoapOption::UriPath), None);
    assert_eq!(request.get_path(), "");

    request.set_path("//");
    assert_eq!(
        request.message.get_option(CoapOption::UriPath),
        Some(&vec![Vec::<u8>::new(), Vec::<u8>::new()])
    );
    assert_eq!(request.get_path(), "/");

    request.set_path("a//b");
    assert_eq!(
        request.message.get_option(CoapOption::UriPath),
        Some(&vec![b"a".to_vec(), Vec::<u8>::new(), b"b".to_vec()])
    );
    assert_eq!(request.get_path(), "a//b");

    request.set_path("/caf\u{e9}/x");
    assert_eq!(
        request.message.get_option(CoapOption::UriPath),
        Some(&vec!["caf\u{e9}".as_bytes().to_vec(), b"x".to_vec()])
    );
    assert_eq!(request.get_path(), "caf\u{e9}/x");
}

#[test]
fn path_skips_segments_that_are_not_utf8() {
    let mut request: CoapRequest<Endpoint> = CoapRequest::new();
    request.message.add_option(CoapOption::UriPath, b"a".to_vec());
    request.message.add_option(CoapOption::UriPath, vec![0xff]);
    request.message.add_option(CoapOption::UriPath, b"b".to_vec());
    assert_eq!(request.get_path(), "a/b");
    let e = request.get_path_as_vec().unwrap_err();
    assert_eq!(e.message, String::from_utf8(vec![0xff]).unwrap_err().to_string());
}

#[test]
fn observe_flags() {
    let mut request: CoapRequest<Endpoint> = CoapRequest::new();
    assert_eq!(request.get_observe_flag(), None);
    request.set_observe_flag(ObserveOption::Register);
    assert_eq!(request.get_observe_flag(), Some(Ok(ObserveOption::Register)));
    assert_eq!(request.message.get_first_option(CoapOption::Observe), Some(&vec![]));
    request.set_observe_flag(ObserveOption::Deregister);
    assert_eq!(request.get_observe_flag(), Some(Ok(ObserveOption::Deregister)));
    assert_eq!(request.message.get_option(CoapOption::Observe), Some(&vec![vec![1u8]]));
    // a valid number in more bytes than it needs
    request.message.clear_option(CoapOption::Observe);
    request.message.add_option(CoapOption::Observe, vec![0, 0, 0, 1]);
    assert_eq!(request.get_observe_flag(), Some(Ok(ObserveOption::Deregister)));
}

#[test]
fn apply_from_error_fills_the_response() {
    let mut packet = Packet::new();
    packet.header.message_id = 7;
    let mut request = CoapRequest::from_packet(packet, Endpoint(String::from("peer")));
    assert!(!request.apply_from_error(HandlingError::not_handled()));
    assert_eq!(
        request.response.as_ref().unwrap().message.header.code,
        MessageClass::Response(ResponseType::Content)
    );
    assert!(request.apply_from_error(HandlingError::not_found()));
    let reply = &request.response.as_ref().unwrap().message;
    assert_eq!(reply.header.code, MessageClass::Response(ResponseType::NotFound));
    assert_eq!(reply.get_content_format(), Some(ContentFormat::TextPlain));
    assert_eq!(reply.payload, b"Not found".to_vec());
    assert_eq!(reply.header.message_id, 7);

    let mut request: CoapRequest<Endpoint> = CoapRequest::new();
    assert!(!request.apply_from_error(HandlingError::bad_request("nope")));
    assert!(request.response.is_none());
}

#[test]
fn handling_errors_carry_their_codes() {
    let e = HandlingError::not_handled();
    assert_eq!((e.code, e.message.as_str()), (None, "Not handled"));
    let e = HandlingError::not_found();
    assert_eq!((e.code, e.message.as_str()), (Some(ResponseType::NotFound), "Not found"));
    let e = HandlingError::bad_request("bad");
    assert_eq!((e.code, e.message.as_str()), (Some(ResponseType::BadRequest), "bad"));
    let e = HandlingError::internal("oops");
    assert_eq!((e.code, e.message.as_str()), (Some(ResponseType::InternalServerError), "oops"));
    let e = HandlingError::method_not_supported();
    assert_eq!(
        (e.code, e.message.as_str()),
        (Some(ResponseType::MethodNotAllowed), "Method not supported")
    );
    let e = HandlingError::with_code(ResponseType::Forbidden, "no");
    assert_eq!((e.code, e.message.as_str()), (Some(ResponseType::Forbidden), "no"));
    assert_eq!(e.to_string(), "Handling error Some(Forbidden): no");
    assert_eq!(HandlingError::not_handled().to_string(), "Handling error None: Not handled");
}
