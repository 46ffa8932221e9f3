use coap_lite::block_handler::{
    extending_splice, BlockHandler, BlockHandlerConfig, BlockState, BlockValue, Expiry,
};
use coap_lite::header::{MessageClass, RequestType, ResponseType};
use coap_lite::option_value::OptionValueString;
use coap_lite::packet::{CoapOption, Packet};
use coap_lite::request::CoapRequest;
use coap_lite::response::CoapResponse;

#[derive(Ord, PartialOrd, Eq, PartialEq, Clone)]
enum TestEndpoint {
    TestClient,
}

#[test]
fn test_cached_response_with_blocks() {
    let block = "0123456789\n";

    let mut harness = TestServerHarness::new(32);

    let expected_payload = block.repeat(8).into_bytes();
    let delivered_payload = expected_payload.clone();

    let mut sent_req = create_get_request("test", 1, None);
    let mut received_response = harness
        .exchange_messages(&mut sent_req, move |received_request| {
            let sent_response = received_request.response.as_mut().unwrap();
            sent_response.message.header.code = MessageClass::Response(ResponseType::Content);
            sent_response.message.payload = delivered_payload;
            InterceptPolicy::Expected
        })
        .unwrap();

    let mut received_payload = Vec::<u8>::new();

    let total_blocks = loop {
        received_payload.extend(received_response.message.payload.clone());

        let received_block = received_response
            .message
            .get_first_option_as::<BlockValue>(CoapOption::Block2)
            .unwrap()
            .unwrap();
        let block_size = received_block.size();
        let block_num = received_block.num;

        if !received_block.more {
            break block_num;
        }

        let sent_block =
            BlockValue::new(usize::from(block_num + 1), false /* more */, block_size).unwrap();
        let mut next_sent_req = create_get_request(
            "test",
            received_response.message.header.message_id + 1,
            Some(sent_block),
        );

        received_response = harness.exchange_messages_using_cache(&mut next_sent_req).unwrap();

        // Make sure the caching didn't do something clowny like copy the
        // message_id.
        assert_eq!(
            received_response.message.header.message_id,
            next_sent_req.message.header.message_id
        );
    };

    // Make sure that we _actually_ did block encoding :)
    assert!(total_blocks > 1);

    assert_eq!(
        String::from_utf8(received_payload).unwrap(),
        String::from_utf8(expected_payload).unwrap()
    );

    // Now verify that the cached entry is cleared...
    let mut followup_req = create_get_request("test", u16::MAX, None);
    let followup_block2 = BlockValue::new(0, false, 16).unwrap();
    followup_req.message.add_option_as::<BlockValue>(CoapOption::Block2, followup_block2);
    let followup_response = harness
        .exchange_messages(&mut followup_req, move |received_request| {
            let sent_response = received_request.response.as_mut().unwrap();
            sent_response.message.header.code = MessageClass::Response(ResponseType::Content);
            sent_response.message.payload = "small".as_bytes().to_vec();
            InterceptPolicy::NotExpected
        })
        .unwrap();

    assert_eq!(String::from_utf8(followup_response.message.payload).unwrap(), "small".to_owned());
}

#[test]
fn test_server_asserts_block1_encoding_required() {
    let block = "0123456789\n";

    let mut harness = TestServerHarness::new(32);

    let full_payload = block.repeat(8).into_bytes();

    let mut sent_request = create_put_request("test", 1, &full_payload, None);
    let received_response = harness.exchange_messages_using_cache(&mut sent_request).unwrap();

    assert_eq!(
        received_response.message.header.code,
        MessageClass::Response(ResponseType::RequestEntityTooLarge)
    );
    let received_block = received_response
        .message
        .get_first_option_as::<BlockValue>(CoapOption::Block1)
        .expect("Must respond with Block1 option")
        .expect("Must provide valid Block1 option");
    assert!(received_block.more);
}

#[test]
fn test_cached_request_happy_path() {
    let block = "0123456789\n";

    let mut harness = TestServerHarness::new(32);

    let sent_payload = block.repeat(8).into_bytes();
    let expected_payload = sent_payload.clone();

    let block_size = 16;

    let chunks = sent_payload.chunks(block_size);
    let total_chunks = chunks.len();

    for (num, chunk) in chunks.enumerate() {
        let has_more_chunks = num + 1 < total_chunks;

        let block = BlockValue::new(num, has_more_chunks, block_size).unwrap();
        let mut sent_request = create_put_request("test", 1, chunk, Some(block));

        let received_response = if has_more_chunks {
            let received_response =
                harness.exchange_messages_using_cache(&mut sent_request).unwrap();
            assert_eq!(
                received_response.message.header.code,
                MessageClass::Response(ResponseType::Continue)
            );
            received_response
        } else {
            let received_response = harness
                .exchange_messages(&mut sent_request, |received_request| {
                    assert_eq!(
                        String::from_utf8(received_request.message.payload.clone()).unwrap(),
                        String::from_utf8(expected_payload.clone()).unwrap()
                    );
                    let sent_response = received_request.response.as_mut().unwrap();
                    sent_response.message.header.code =
                        MessageClass::Response(ResponseType::Changed);
                    InterceptPolicy::NotExpected
                })
                .unwrap();
            assert_eq!(
                received_response.message.header.code,
                MessageClass::Response(ResponseType::Changed)
            );
            received_response
        };

        let received_block = received_response
            .message
            .get_first_option_as::<BlockValue>(CoapOption::Block1)
            .unwrap()
            .unwrap();

        // This test isn't expecting renegotiation...
        assert_eq!(received_block.size(), block_size);
    }
}

struct TestServerHarness {
    handler: BlockHandler<TestEndpoint>,
}

impl TestServerHarness {
    pub fn new(max_message_size: usize) -> Self {
        TestServerHarness {
            handler: BlockHandler::new(BlockHandlerConfig {
                max_total_message_size: max_message_size,
                cache_expiry_duration: Expiry::from_millis(u32::MAX.into()),
            }),
        }
    }

    pub fn exchange_messages_using_cache(
        &mut self,
        sent_request: &mut CoapRequest<TestEndpoint>,
    ) -> Option<CoapResponse> {
        self.exchange_messages_internal(sent_request, true, |_| InterceptPolicy::DoNotInvoke)
    }

    pub fn exchange_messages<F>(
        &mut self,
        sent_request: &mut CoapRequest<TestEndpoint>,
        response_generator: F,
    ) -> Option<CoapResponse>
    where
        F: FnOnce(&mut CoapRequest<TestEndpoint>) -> InterceptPolicy,
    {
        self.exchange_messages_internal(sent_request, false, response_generator)
    }

    fn exchange_messages_internal<F>(
        &mut self,
        sent_request: &mut CoapRequest<TestEndpoint>,
        expect_intercept_request: bool,
        response_generator: F,
    ) -> Option<CoapResponse>
    where
        F: FnOnce(&mut CoapRequest<TestEndpoint>) -> InterceptPolicy,
    {
        assert_eq!(
            self.handler.intercept_request(sent_request).unwrap(),
            expect_intercept_request
        );

        let mut received_request = sent_request.clone();
        match response_generator(&mut received_request) {
            InterceptPolicy::DoNotInvoke => sent_request.response.clone(),
            policy => {
                assert_eq!(
                    self.handler.intercept_response(&mut received_request).unwrap(),
                    match policy {
                        InterceptPolicy::Expected => true,
                        InterceptPolicy::NotExpected => false,
                        _ => panic!(),
                    }
                );

                received_request.response
            }
        }
    }
}

#[derive(Debug, Copy, Clone)]
enum InterceptPolicy {
    Expected,
    NotExpected,
    DoNotInvoke,
}

fn create_get_request(
    path: &str,
    mid: u16,
    block2: Option<BlockValue>,
) -> CoapRequest<TestEndpoint> {
    create_request(RequestType::Get, path, mid, None, block2)
}

fn create_put_request(
    path: &str,
    mid: u16,
    payload: &[u8],
    block1: Option<BlockValue>,
) -> CoapRequest<TestEndpoint> {
    let mut request = create_request(RequestType::Put, path, mid, block1, None);
    request.message.payload.extend(payload);
    request
}

fn create_request(
    method: RequestType,
    path: &str,
    mid: u16,
    block1: Option<BlockValue>,
    block2: Option<BlockValue>,
) -> CoapRequest<TestEndpoint> {
    let mut packet = Packet::new();
    packet.header.code = MessageClass::Request(method);

    let uri_path: Vec<_> = path.split('/').map(|x| OptionValueString(x.to_owned())).collect();
    packet.set_options_as(CoapOption::UriPath, uri_path);

    let options = vec![(CoapOption::Block1, block1), (CoapOption::Block2, block2)];
    for (key, value) in options {
        if let Some(value) = value {
            packet.add_option_as(key, value);
        }
    }

    packet.header.message_id = mid;
    packet.payload = Vec::new();
    CoapRequest::<TestEndpoint>::from_packet(packet, TestEndpoint::TestClient)
}

#[test]
fn splice_replaces_a_range() {
    let mut dst = vec![1u8, 2, 3, 4];
    assert_eq!(extending_splice(&mut dst, 1, 3, &[9, 9, 9], 0), Ok(()));
    assert_eq!(dst, vec![1, 9, 9, 9, 4]);
    assert_eq!(extending_splice(&mut dst, 5, 5, &[], 0), Ok(()));
    assert_eq!(dst, vec![1, 9, 9, 9, 4]);
}

#[test]
fn splice_extends_up_to_the_reserve() {
    let mut dst = vec![1u8];
    assert_eq!(extending_splice(&mut dst, 3, 5, &[7], 4), Ok(()));
    assert_eq!(dst, vec![1, 0, 0, 7]);
    let mut dst = vec![1u8];
    assert_eq!(
        extending_splice(&mut dst, 3, 6, &[7], 4),
        Err("extend_len=5, maximum_extend_len=4".to_owned())
    );
    assert_eq!(dst, vec![1]);
}

#[test]
fn reassembly_refuses_a_far_jump() {
    // block 1100 of 16 bytes lies more than 16 KiB behind an empty buffer
    let far = BlockValue::new(1100, true, 16).unwrap();
    let mut request = create_put_request("test", 1, &[1u8; 16], Some(far));
    let mut state = BlockState::default();
    let result =
        BlockHandler::<TestEndpoint>::handle_request(&mut request, 1152, &mut state);
    let e = result.unwrap_err();
    assert_eq!(e.code, Some(ResponseType::InternalServerError));
    assert_eq!(e.message, "extend_len=17616, maximum_extend_len=16384");
    assert_eq!(state.cached_request_payload(), Some(&Vec::new()));

    // block 1023 still lies within reach
    let near = BlockValue::new(1023, true, 16).unwrap();
    let mut request = create_put_request("test", 1, &[1u8; 16], Some(near));
    let mut state = BlockState::default();
    assert_eq!(
        BlockHandler::<TestEndpoint>::handle_request(&mut request, 1152, &mut state).unwrap(),
        true
    );
    assert_eq!(state.cached_request_payload().unwrap().len(), 16384);
}

#[test]
fn block_request_beyond_the_cached_payload_is_a_bad_request() {
    let mut state = BlockState::default();
    let mut first = create_get_request("test", 1, None);
    assert_eq!(
        BlockHandler::<TestEndpoint>::handle_request(&mut first, 32, &mut state).unwrap(),
        false
    );
    first.response.as_mut().unwrap().message.payload = vec![5u8; 40];
    assert_eq!(
        BlockHandler::<TestEndpoint>::handle_response(&mut first, 32, &mut state).unwrap(),
        true
    );
    let response = first.response.as_ref().unwrap();
    assert_eq!(response.message.payload, vec![5u8; 16]);
    assert_eq!(
        response.message.get_first_option_as::<BlockValue>(CoapOption::Block2),
        Some(Ok(BlockValue { num: 0, more: true, size_exponent: 0 }))
    );
    assert!(state.cached_response().is_some());
    assert_eq!(state.cached_response().unwrap().payload.len(), 40);

    let beyond = BlockValue::new(3, false, 16).unwrap();
    let mut next = create_get_request("test", 2, Some(beyond));
    let e = BlockHandler::<TestEndpoint>::handle_request(&mut next, 32, &mut state).unwrap_err();
    assert_eq!(e.code, Some(ResponseType::BadRequest));
    assert_eq!(e.message, "num=3, block_size=16");
    assert_eq!(state.last_request_block2(), Some(beyond));
    assert!(state.cached_response().is_some());

    let last = BlockValue::new(2, false, 16).unwrap();
    let mut next = create_get_request("test", 3, Some(last));
    assert_eq!(
        BlockHandler::<TestEndpoint>::handle_request(&mut next, 32, &mut state).unwrap(),
        true
    );
    let response = next.response.as_ref().unwrap();
    assert_eq!(response.message.payload, vec![5u8; 8]);
    assert_eq!(response.message.header.message_id, 3);
    assert_eq!(
        response.message.get_first_option_as::<BlockValue>(CoapOption::Block2),
        Some(Ok(BlockValue { num: 2, more: false, size_exponent: 0 }))
    );
    assert!(state.cached_response().is_none());
}

#[test]
fn response_with_its_own_block2_is_left_alone() {
    let mut state = BlockState::default();
    let mut request = create_get_request("test", 1, None);
    let own = BlockValue::new(0, true, 64).unwrap();
    {
        let response = request.response.as_mut().unwrap();
        response.message.payload = vec![1u8; 500];
        response.message.add_option_as(CoapOption::Block2, own);
    }
    assert_eq!(
        BlockHandler::<TestEndpoint>::handle_response(&mut request, 32, &mut state).unwrap(),
        false
    );
    assert_eq!(request.response.as_ref().unwrap().message.payload.len(), 500);
    assert!(state.cached_response().is_none());
}

#[test]
fn small_response_is_left_alone() {
    let mut state = BlockState::default();
    let mut request = create_get_request("test", 1, None);
    // 4 bytes of header and 12 of headroom leave 16 for the payload
    request.response.as_mut().unwrap().message.payload = vec![1u8; 16];
    assert_eq!(
        BlockHandler::<TestEndpoint>::handle_response(&mut request, 32, &mut state).unwrap(),
        false
    );
    let response = request.response.as_ref().unwrap();
    assert_eq!(response.message.payload.len(), 16);
    assert_eq!(response.message.get_option(CoapOption::Block2), None);
}

#[test]
fn message_too_large_at_any_block_size_is_an_internal_error() {
    let mut state = BlockState::default();
    let mut request = create_get_request("test", 1, None);
    request.response.as_mut().unwrap().message.payload = vec![1u8; 100];
    let e = BlockHandler::<TestEndpoint>::handle_response(&mut request, 10, &mut state)
        .unwrap_err();
    assert_eq!(e.code, Some(ResponseType::InternalServerError));
    assert_eq!(e.message, "Message too large to encode at any block size: 10 exceeds 16");
    // no room at all for a payload
    let e = BlockHandler::<TestEndpoint>::handle_response(&mut request, 16, &mut state)
        .unwrap_err();
    assert_eq!(e.message, "size cannot be encoded 0");
}

#[test]
fn negotiation_takes_the_smaller_size() {
    let asked = BlockValue { num: 2, more: false, size_exponent: 2 };
    // 64 bytes asked for, 104 - (52 + 12) = 40 bytes possible: blocks of 32
    // bytes are sent, and byte 128 stands at the start of the fifth
    let block = BlockHandler::<TestEndpoint>::negotiate_block_size_if_necessary(
        Some(asked),
        52 + 500,
        500,
        104,
    )
    .unwrap()
    .unwrap();
    assert_eq!(block, BlockValue { num: 4, more: true, size_exponent: 1 });
    // room for more than was asked for
    let block = BlockHandler::<TestEndpoint>::negotiate_block_size_if_necessary(
        Some(asked),
        52 + 150,
        150,
        1152,
    )
    .unwrap()
    .unwrap();
    assert_eq!(block, BlockValue { num: 2, more: false, size_exponent: 2 });
    assert_eq!(
        BlockHandler::<TestEndpoint>::negotiate_block_size_if_necessary(None, 20 + 30, 30, 62)
            .unwrap(),
        None
    );
    // 31 bytes of payload, 30 of room: blocks of 16 bytes
    assert_eq!(
        BlockHandler::<TestEndpoint>::negotiate_block_size_if_necessary(None, 20 + 31, 31, 62)
            .unwrap(),
        Some(BlockValue { num: 0, more: true, size_exponent: 0 })
    );
    // room for more than the largest block
    assert_eq!(
        BlockHandler::<TestEndpoint>::negotiate_block_size_if_necessary(
            None,
            20 + 9000,
            9000,
            5000
        )
        .unwrap(),
        Some(BlockValue { num: 0, more: true, size_exponent: 6 })
    );
    assert_eq!(BlockHandler::<TestEndpoint>::largest_block_size(1158), 1024);
    assert_eq!(BlockHandler::<TestEndpoint>::largest_block_size(16), 16);
    assert_eq!(BlockHandler::<TestEndpoint>::largest_block_size(63), 32);
    assert_eq!(BlockHandler::<TestEndpoint>::largest_block_size(11), 16);
}

#[test]
fn response_cannot_be_sent_in_blocks_below_sixteen_bytes() {
    // 92 bytes of message, 88 of them payload, and 24 bytes in all: 8 are left
    let e = BlockHandler::<TestEndpoint>::negotiate_block_size_if_necessary(None, 92, 88, 24)
        .unwrap_err();
    assert_eq!(e.code, Some(ResponseType::InternalServerError));
    assert_eq!(e.message, "size cannot be encoded 8");
    let asked = BlockValue { num: 0, more: false, size_exponent: 0 };
    let e = BlockHandler::<TestEndpoint>::negotiate_block_size_if_necessary(Some(asked), 9, 5, 31)
        .unwrap_err();
    assert_eq!(e.message, "size cannot be encoded 15");

    let mut state = BlockState::default();
    let mut request = create_get_request("test", 1, None);
    request.response.as_mut().unwrap().message.payload = vec![1u8; 88];
    let e = BlockHandler::<TestEndpoint>::handle_response(&mut request, 24, &mut state)
        .unwrap_err();
    assert_eq!(e.code, Some(ResponseType::InternalServerError));
    assert_eq!(e.message, "size cannot be encoded 8");
    assert_eq!(request.response.as_ref().unwrap().message.payload.len(), 88);
    assert!(state.cached_response().is_none());
    // what fits is sent as it is, whatever is left
    request.response.as_mut().unwrap().message.payload = vec![1u8; 8];
    assert_eq!(
        BlockHandler::<TestEndpoint>::handle_response(&mut request, 24, &mut state).unwrap(),
        false
    );
}

#[test]
fn inbound_block_is_echoed() {
    let mut state = BlockState::default();
    let first = BlockValue::new(0, true, 16).unwrap();
    let mut put = create_put_request("test", 1, &[1u8; 16], Some(first));
    assert_eq!(
        BlockHandler::<TestEndpoint>::handle_request(&mut put, 1152, &mut state).unwrap(),
        true
    );
    let response = put.response.as_ref().unwrap();
    assert_eq!(response.message.header.code, MessageClass::Response(ResponseType::Continue));
    assert_eq!(
        response.message.get_first_option_as::<BlockValue>(CoapOption::Block1),
        Some(Ok(first))
    );
    // with little room the block is taken and echoed all the same
    let second = BlockValue::new(1, true, 16).unwrap();
    let mut put = create_put_request("test", 2, &[2u8; 16], Some(second));
    assert_eq!(
        BlockHandler::<TestEndpoint>::handle_request(&mut put, 24, &mut state).unwrap(),
        true
    );
    assert_eq!(
        put.response.as_ref().unwrap().message.get_first_option_as::<BlockValue>(CoapOption::Block1),
        Some(Ok(second))
    );
    let last = BlockValue::new(2, false, 16).unwrap();
    let mut put = create_put_request("test", 3, &[3u8; 4], Some(last));
    assert_eq!(
        BlockHandler::<TestEndpoint>::handle_request(&mut put, 1152, &mut state).unwrap(),
        false
    );
    let response = put.response.as_ref().unwrap();
    assert_eq!(response.message.header.code, MessageClass::Response(ResponseType::Content));
    assert_eq!(
        response.message.get_first_option_as::<BlockValue>(CoapOption::Block1),
        Some(Ok(last))
    );
    assert_eq!(put.message.payload.len(), 36);
    // a message that is too large without its payload is refused
    let mut put = create_put_request("test", 4, &[4u8; 16], Some(first));
    let e = BlockHandler::<TestEndpoint>::handle_request(&mut put, 20, &mut state).unwrap_err();
    assert_eq!(e.message, "Message too large to encode at any block size: 20 exceeds 24");
}

#[test]
fn payload_without_blocks_is_told_the_block_size() {
    let mut state = BlockState::default();
    let mut put = create_put_request("test", 1, &[1u8; 200], None);
    assert_eq!(
        BlockHandler::<TestEndpoint>::handle_request(&mut put, 150, &mut state).unwrap(),
        true
    );
    let response = put.response.as_ref().unwrap();
    assert_eq!(
        response.message.header.code,
        MessageClass::Response(ResponseType::RequestEntityTooLarge)
    );
    // 150 - (4 + 5 + 12) = 129 bytes of room: blocks of 128 bytes
    assert_eq!(
        response.message.get_first_option_as::<BlockValue>(CoapOption::Block1),
        Some(Ok(BlockValue { num: 0, more: true, size_exponent: 3 }))
    );
    assert_eq!(
        BlockHandler::<TestEndpoint>::advertise_block_size_if_necessary(9 + 100, 100, 32).unwrap(),
        Some(BlockValue { num: 0, more: true, size_exponent: 0 })
    );
    assert_eq!(
        BlockHandler::<TestEndpoint>::advertise_block_size_if_necessary(9 + 10, 10, 32).unwrap(),
        None
    );
    let e = BlockHandler::<TestEndpoint>::advertise_block_size_if_necessary(9 + 10, 10, 21)
        .unwrap_err();
    assert_eq!(e.message, "size cannot be encoded 0");
}

#[test]
fn handler_is_made_for_an_expiry_that_the_cache_can_keep() {
    let config = BlockHandlerConfig::default();
    assert_eq!(config.max_total_message_size, 1152);
    assert_eq!(config.cache_expiry_duration, Expiry::from_secs(120));
    assert!(BlockHandler::<TestEndpoint>::try_new(config).is_some());
    let config = BlockHandlerConfig {
        max_total_message_size: 1152,
        cache_expiry_duration: Expiry::from_secs(0x1_0000_0000),
    };
    assert!(BlockHandler::<TestEndpoint>::try_new(config).is_none());
    let config = BlockHandlerConfig {
        max_total_message_size: 1152,
        cache_expiry_duration: Expiry { seconds: 0xFFFF_FFFF, nanoseconds: 999_999_999 },
    };
    assert!(BlockHandler::<TestEndpoint>::try_new(config).is_some());
    assert_eq!(Expiry::from_millis(1500), Expiry { seconds: 1, nanoseconds: 500_000_000 });
    assert_eq!(
        Expiry::from_millis(u32::MAX.into()),
        Expiry { seconds: 4_294_967, nanoseconds: 295_000_000 }
    );
}

#[test]
fn cached_state_expires() {
    let mut handler = BlockHandler::<TestEndpoint>::new(BlockHandlerConfig {
        max_total_message_size: 1152,
        cache_expiry_duration: Expiry::from_millis(0),
    });
    let first = BlockValue::new(0, true, 16).unwrap();
    let mut put = create_put_request("a", 1, &[1u8; 16], Some(first));
    assert_eq!(handler.intercept_request(&mut put).unwrap(), true);
    let sent = std::time::Instant::now();
    while sent.elapsed() < std::time::Duration::from_millis(5) {}
    // the first block is forgotten: the second meets an empty buffer
    let second = BlockValue::new(1, false, 16).unwrap();
    let mut put = create_put_request("a", 2, &[3u8; 16], Some(second));
    assert_eq!(handler.intercept_request(&mut put).unwrap(), false);
    let mut expected = vec![0u8; 16];
    expected.extend([3u8; 16]);
    assert_eq!(put.message.payload, expected);
}

#[test]
fn states_are_kept_per_path() {
    let mut handler = BlockHandler::<TestEndpoint>::new(BlockHandlerConfig::default());
    let mut put = create_put_request("a", 1, &[1u8; 16], Some(BlockValue::new(0, true, 16).unwrap()));
    assert_eq!(handler.intercept_request(&mut put).unwrap(), true);
    // the second block of another resource meets an empty buffer
    let mut other =
        create_put_request("b", 2, &[2u8; 16], Some(BlockValue::new(1, false, 16).unwrap()));
    assert_eq!(handler.intercept_request(&mut other).unwrap(), false);
    let mut expected = vec![0u8; 16];
    expected.extend([2u8; 16]);
    assert_eq!(other.message.payload, expected);
    // the second block of the first resource finds its first
    let mut put = create_put_request("a", 3, &[3u8; 16], Some(BlockValue::new(1, false, 16).unwrap()));
    assert_eq!(handler.intercept_request(&mut put).unwrap(), false);
    let mut expected = vec![1u8; 16];
    expected.extend([3u8; 16]);
    assert_eq!(put.message.payload, expected);
}

#[test]
fn request_without_a_response_is_not_handled() {
    let mut state = BlockState::default();
    let mut packet = Packet::new();
    packet.header.code = MessageClass::Request(RequestType::Put);
    packet.add_option_as(CoapOption::Block1, BlockValue::new(0, true, 16).unwrap());
    packet.payload = vec![1u8; 16];
    let mut request: CoapRequest<TestEndpoint> = CoapRequest::new();
    request.message = packet;
    let e = BlockHandler::<TestEndpoint>::handle_request(&mut request, 64, &mut state).unwrap_err();
    assert_eq!(e.code, None);
    assert_eq!(e.message, "Not handled");
    // the block was taken all the same
    assert_eq!(state.cached_request_payload(), Some(&vec![1u8; 16]));
    // and a response that is missing is nothing to fragment
    assert_eq!(
        BlockHandler::<TestEndpoint>::handle_response(&mut request, 64, &mut state).unwrap(),
        false
    );
}

#[test]
fn last_block_may_be_short() {
    let mut state = BlockState::default();
    let mut first = create_put_request("r", 1, &[1u8; 16], Some(BlockValue::new(0, true, 16).unwrap()));
    assert_eq!(
        BlockHandler::<TestEndpoint>::handle_request(&mut first, 64, &mut state).unwrap(),
        true
    );
    let response = first.response.as_ref().unwrap();
    assert_eq!(response.message.header.code, MessageClass::Response(ResponseType::Continue));
    let mut last = create_put_request("r", 2, &[2u8; 5], Some(BlockValue::new(1, false, 16).unwrap()));
    assert_eq!(
        BlockHandler::<TestEndpoint>::handle_request(&mut last, 64, &mut state).unwrap(),
        false
    );
    let mut expected = vec![1u8; 16];
    expected.extend([2u8; 5]);
    assert_eq!(last.message.payload, expected);
    assert_eq!(state.cached_request_payload(), None);
    assert!(last.response.as_ref().unwrap().message.get_option(CoapOption::Block1).is_some());
}
