use coap_lite::header::{MessageClass, MessageType, RequestType as Method, ResponseType};
use coap_lite::observe::{create_notification, Subject};
use coap_lite::packet::{CoapOption, ObserveOption};
use coap_lite::request::CoapRequest;

type Endpoint = String;

#[test]
fn register() {
    let resource_path = "temp";

    let mut request = CoapRequest::new();
    request.source = Some(String::from("0.0.0.0"));
    request.set_method(Method::Get);
    request.set_path(resource_path);
    request.message.set_token(vec![0x7d, 0x34]);
    request.message.set_observe(vec![ObserveOption::Register as u8]);

    let mut subject: Subject<Endpoint> = Subject::default();
    subject.register(&request);

    let observers = subject.get_resource_observers(resource_path).unwrap();

    assert_eq!(observers.len(), 1);
}

#[test]
fn register_replace() {
    let resource_path = "temp";

    let mut request1 = CoapRequest::new();
    request1.source = Some(String::from("0.0.0.0"));
    request1.set_method(Method::Get);
    request1.set_path(resource_path);
    request1.message.set_token(vec![0x00, 0x00]);
    request1.message.set_observe(vec![ObserveOption::Register as u8]);

    let mut request2 = CoapRequest::new();
    request2.source = Some(String::from("0.0.0.0"));
    request2.set_method(Method::Get);
    request2.set_path(resource_path);
    request2.message.set_token(vec![0xff, 0xff]);
    request2.message.set_observe(vec![ObserveOption::Register as u8]);

    let mut subject: Subject<Endpoint> = Subject::default();
    subject.register(&request1);
    subject.register(&request2);

    let observers = subject.get_resource_observers(resource_path).unwrap();

    assert_eq!(observers.len(), 1);

    let observer = observers.get(0).unwrap();

    assert_eq!(observer.token, vec![0xff, 0xff]);
}

#[test]
fn ack_flow_ok() {
    let resource_path = "temp";

    let mut request1 = CoapRequest::new();
    request1.source = Some(String::from("0.0.0.0"));
    request1.set_method(Method::Get);
    request1.set_path(resource_path);
    request1.message.set_token(vec![0x00, 0x00]);
    request1.message.set_observe(vec![ObserveOption::Register as u8]);

    let mut subject: Subject<Endpoint> = Subject::default();
    subject.register(&request1);

    let sequence1 = subject.get_resource(resource_path).unwrap().sequence;
    subject.resource_changed(resource_path, 1);
    let sequence2 = subject.get_resource(resource_path).unwrap().sequence;

    assert!(sequence2 > sequence1);

    {
        let observers = subject.get_resource_observers(resource_path).unwrap();
        let observer = observers.get(0).unwrap();

        assert_eq!(observer.unacknowledged_messages, 1);
    }

    let mut ack = CoapRequest::new();
    ack.source = Some(String::from("0.0.0.0"));
    ack.message.header.set_type(MessageType::Acknowledgement);
    ack.set_path(resource_path);
    ack.message.set_token(vec![0x00, 0x00]);
    ack.message.header.message_id = 1;

    subject.acknowledge(&ack);

    {
        let observers = subject.get_resource_observers(resource_path).unwrap();
        let observer = observers.get(0).unwrap();

        assert_eq!(observer.unacknowledged_messages, 0);
    }
}

#[test]
fn ack_flow_forget_observer() {
    let resource_path = "temp";

    let mut request1 = CoapRequest::new();
    request1.source = Some(String::from("0.0.0.0"));
    request1.set_method(Method::Get);
    request1.set_path(resource_path);
    request1.message.set_token(vec![0x00, 0x00]);
    request1.message.set_observe(vec![ObserveOption::Register as u8]);

    let mut subject: Subject<Endpoint> = Subject::default();
    subject.set_unacknowledged_limit(5);
    subject.register(&request1);

    subject.resource_changed(resource_path, 1);
    subject.resource_changed(resource_path, 2);
    subject.resource_changed(resource_path, 3);
    subject.resource_changed(resource_path, 4);
    subject.resource_changed(resource_path, 5);
    subject.resource_changed(resource_path, 6);

    let observers = subject.get_resource_observers(resource_path).unwrap();

    assert_eq!(observers.len(), 0);
}

fn observe_request(endpoint: &str, path: &str, token: Vec<u8>) -> CoapRequest<Endpoint> {
    let mut request = CoapRequest::new();
    request.source = Some(String::from(endpoint));
    request.set_method(Method::Get);
    request.set_path(path);
    request.message.set_token(token);
    request
}

#[test]
fn sequence_counts_the_changes() {
    let mut subject: Subject<Endpoint> = Subject::default();
    subject.register(&observe_request("a", "temp", vec![1]));
    assert_eq!(subject.get_resource("temp").unwrap().sequence, 0);
    for n in 1..=40u32 {
        subject.resource_changed("temp", n as u16);
        assert_eq!(subject.get_resource("temp").unwrap().sequence, n);
    }
    // a resource that is not tracked stays untracked
    subject.resource_changed("other", 1);
    assert!(subject.get_resource("other").is_none());
    assert!(subject.get_resource_observers("other").is_none());
}

#[test]
fn observer_is_kept_up_to_the_limit() {
    let mut subject: Subject<Endpoint> = Subject::default();
    subject.set_unacknowledged_limit(5);
    subject.register(&observe_request("a", "temp", vec![1]));
    for n in 1..=5u16 {
        subject.resource_changed("temp", n);
        let observers = subject.get_resource_observers("temp").unwrap();
        assert_eq!(observers.len(), 1);
        assert_eq!(observers[0].unacknowledged_messages, n as u8);
        assert_eq!(observers[0].message_id, Some(n));
    }
    subject.resource_changed("temp", 6);
    assert_eq!(subject.get_resource_observers("temp").unwrap().len(), 0);
    assert_eq!(subject.get_resource("temp").unwrap().sequence, 6);
}

#[test]
fn default_limit_is_ten() {
    let mut subject: Subject<Endpoint> = Subject::default();
    subject.register(&observe_request("a", "temp", vec![1]));
    for n in 1..=10u16 {
        subject.resource_changed("temp", n);
    }
    assert_eq!(subject.get_resource_observers("temp").unwrap().len(), 1);
    subject.resource_changed("temp", 11);
    assert_eq!(subject.get_resource_observers("temp").unwrap().len(), 0);
}

#[test]
fn deregister_matches_endpoint_and_token() {
    let mut subject: Subject<Endpoint> = Subject::default();
    subject.register(&observe_request("a", "temp", vec![1]));
    subject.register(&observe_request("b", "temp", vec![2]));
    subject.register(&observe_request("a", "hum", vec![3]));
    assert_eq!(subject.get_resource_observers("temp").unwrap().len(), 2);

    subject.deregister(&observe_request("a", "temp", vec![9]));
    assert_eq!(subject.get_resource_observers("temp").unwrap().len(), 2);
    subject.deregister(&observe_request("c", "temp", vec![1]));
    assert_eq!(subject.get_resource_observers("temp").unwrap().len(), 2);
    subject.deregister(&observe_request("a", "missing", vec![1]));
    assert!(subject.get_resource("missing").is_none());

    subject.deregister(&observe_request("a", "temp", vec![1]));
    let observers = subject.get_resource_observers("temp").unwrap();
    assert_eq!(observers.len(), 1);
    assert_eq!(observers[0].endpoint, "b");
    assert_eq!(subject.get_resource_observers("hum").unwrap().len(), 1);
}

#[test]
fn acknowledge_matches_endpoint_and_message_id() {
    let mut subject: Subject<Endpoint> = Subject::default();
    subject.register(&observe_request("a", "temp", vec![1]));
    subject.register(&observe_request("b", "temp", vec![2]));
    subject.register(&observe_request("a", "hum", vec![3]));
    subject.resource_changed("temp", 10);
    subject.resource_changed("hum", 10);
    subject.resource_changed("temp", 11);

    let mut ack = observe_request("a", "", vec![]);
    ack.message.header.message_id = 10;
    subject.acknowledge(&ack);
    // the observer of "temp" waits for 11, that of "hum" for 10
    assert_eq!(subject.get_resource_observers("temp").unwrap()[0].unacknowledged_messages, 2);
    assert_eq!(subject.get_resource_observers("hum").unwrap()[0].unacknowledged_messages, 0);
    assert_eq!(subject.get_resource_observers("hum").unwrap()[0].message_id, None);

    ack.message.header.message_id = 11;
    subject.acknowledge(&ack);
    let observers = subject.get_resource_observers("temp").unwrap();
    assert_eq!(observers[0].unacknowledged_messages, 0);
    assert_eq!(observers[1].unacknowledged_messages, 2);
    assert_eq!(observers[1].message_id, Some(11));
}

#[test]
fn notification_carries_the_sequence_in_the_fewest_bytes() {
    let packet = create_notification(0x0102, vec![7, 8], 0, b"x".to_vec());
    assert_eq!(packet.header.get_version(), 1);
    assert_eq!(packet.header.get_type(), MessageType::Confirmable);
    assert_eq!(packet.header.code, MessageClass::Response(ResponseType::Content));
    assert_eq!(packet.header.message_id, 0x0102);
    assert_eq!(packet.get_token(), &[7, 8]);
    assert_eq!(packet.payload, b"x".to_vec());
    assert_eq!(packet.get_option(CoapOption::Observe), Some(&vec![Vec::<u8>::new()]));
    assert_eq!(packet.options().len(), 1);

    let packet = create_notification(1, vec![], 0x012345, vec![]);
    assert_eq!(packet.get_option(CoapOption::Observe), Some(&vec![vec![0x01, 0x23, 0x45]]));
    assert_eq!(packet.get_observe_value(), Some(Ok(0x012345)));
    let packet = create_notification(1, vec![], u32::MAX, vec![]);
    assert_eq!(packet.get_option(CoapOption::Observe), Some(&vec![vec![0xFF; 4]]));
    assert_eq!(
        packet.to_bytes().unwrap(),
        vec![0x40, 0x45, 0x00, 0x01, 0x64, 0xFF, 0xFF, 0xFF, 0xFF]
    );
}
