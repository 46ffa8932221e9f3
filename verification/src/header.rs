//! The fixed four-byte message header.

use vstd::prelude::*;
use vstd::std_specs::convert::FromSpecImpl;
use vstd::string::StringSliceAdditionalSpecFns;

use crate::error::MessageError;

verus! {

/// The raw byte header representation, useful for encoding/decoding directly.
#[derive(Debug, Clone, Copy, PartialEq, Eq, Structural)]
pub struct HeaderRaw {
    ver_type_tkl: u8,
    code: u8,
    message_id: u16,
}

/// The four bytes of a raw header on the wire: the packed version, type and
/// token length, the code, then the message id in network order.
pub open spec fn header_bytes(ver_type_tkl: u8, code: u8, message_id: u16) -> Seq<u8> {
    seq![ver_type_tkl, code, (message_id / 256) as u8, (message_id % 256) as u8]
}

impl HeaderRaw {
    /// The byte that packs version, type and token length.
    pub closed spec fn spec_ver_type_tkl(self) -> u8 {
        self.ver_type_tkl
    }

    /// The code byte.
    pub closed spec fn spec_code(self) -> u8 {
        self.code
    }

    /// The message id.
    pub closed spec fn spec_message_id(self) -> u16 {
        self.message_id
    }

    /// The wire form of this header.
    pub open spec fn bytes(self) -> Seq<u8> {
        header_bytes(self.spec_ver_type_tkl(), self.spec_code(), self.spec_message_id())
    }

    /// Appends the four header bytes to `buf`, given the capacity that `buf`
    /// was found to have: a buffer that cannot hold four bytes is refused and
    /// left as it was.
    pub fn serialize_with_capacity(&self, buf: &mut Vec<u8>, capacity: usize) -> (r: Result<
        (),
        MessageError,
    >)
        ensures
            capacity < 4 <==> r is Err,
            r is Err ==> r == Err::<(), MessageError>(MessageError::InvalidPacketLength)
                && final(buf)@ == old(buf)@,
            r is Ok ==> final(buf)@ == old(buf)@ + self.bytes(),
    {
        if capacity < 4 {
            return Err(MessageError::InvalidPacketLength);
        }
        buf.push(self.ver_type_tkl);
        buf.push(self.code);
        buf.push((self.message_id / 256) as u8);
        buf.push((self.message_id % 256) as u8);
        assert(buf@ =~= old(buf)@ + self.bytes());
        Ok(())
    }

    /// Writes the header into the given buffer, which must have a capacity of
    /// at least 4. What the allocator reserved decides; a buffer that already
    /// holds four bytes or more always has room.
    pub fn serialize_into(&self, buf: &mut Vec<u8>) -> (r: Result<(), MessageError>)
        ensures
            old(buf)@.len() >= 4 ==> r is Ok,
            r is Err ==> r == Err::<(), MessageError>(MessageError::InvalidPacketLength)
                && final(buf)@ == old(buf)@,
            r is Ok ==> final(buf)@ == old(buf)@ + self.bytes(),
    {
        let capacity = reserved_capacity(buf);
        self.serialize_with_capacity(buf, capacity)
    }

    /// Reads a raw header from the first four bytes of `buf`.
    pub fn try_from(buf: &[u8]) -> (r: Result<HeaderRaw, MessageError>)
        ensures
            buf@.len() < 4 <==> r is Err,
            r is Err ==> r == Err::<HeaderRaw, MessageError>(MessageError::InvalidPacketLength),
            r matches Ok(raw) ==> {
                &&& raw.spec_ver_type_tkl() == buf@[0]
                &&& raw.spec_code() == buf@[1]
                &&& raw.spec_message_id() == buf@[2] as int * 256 + buf@[3] as int
            },
    {
        if buf.len() < 4 {
            return Err(MessageError::InvalidPacketLength);
        }
        let hi: u16 = buf[2] as u16;
        let lo: u16 = buf[3] as u16;
        Ok(HeaderRaw { ver_type_tkl: buf[0], code: buf[1], message_id: hi * 256 + lo })
    }
}

/// `Vec::capacity`: the number of elements the vector can hold without
/// reallocating, which is never less than its length. The exact figure is the
/// allocator's business.
#[verifier::external_body]
fn reserved_capacity(buf: &Vec<u8>) -> (capacity: usize)
    ensures
        capacity >= buf@.len(),
{
    buf.capacity()
}

impl Default for HeaderRaw {
    /// Version 1, Confirmable, no token, GET, message id 0.
    fn default() -> (raw: HeaderRaw)
        ensures
            raw.spec_ver_type_tkl() == 0x40,
            raw.spec_code() == 0x01,
            raw.spec_message_id() == 0,
    {
        HeaderRaw { ver_type_tkl: 0x40, code: 0x01, message_id: 0 }
    }
}

/// The request codes.
#[derive(Debug, Clone, Copy, PartialEq, Eq, Structural)]
pub enum RequestType {
    Get,
    Post,
    Put,
    Delete,
    Fetch,
    Patch,
    IPatch,
    UnKnown,
}

/// The response codes.
#[derive(Debug, Clone, Copy, PartialEq, Eq, Structural)]
pub enum ResponseType {
    // 200 Codes
    Created,
    Deleted,
    Valid,
    Changed,
    Content,
    Continue,
    // 400 Codes
    BadRequest,
    Unauthorized,
    BadOption,
    Forbidden,
    NotFound,
    MethodNotAllowed,
    NotAcceptable,
    PreconditionFailed,
    RequestEntityTooLarge,
    UnsupportedContentFormat,
    RequestEntityIncomplete,
    TooManyRequests,
    // 500 Codes
    InternalServerError,
    NotImplemented,
    BadGateway,
    ServiceUnavailable,
    GatewayTimeout,
    ProxyingNotSupported,
    UnKnown,
}

/// The message types.
#[derive(Debug, Clone, Copy, PartialEq, Eq, Structural)]
pub enum MessageType {
    Confirmable,
    NonConfirmable,
    Acknowledgement,
    Reset,
}

/// The detailed class (request/response) of a message with the code.
///
/// A code byte outside the enumerated set is kept as it came in `Reserved`.
#[derive(Debug, Clone, Copy, PartialEq, Eq, Structural)]
pub enum MessageClass {
    Empty,
    Request(RequestType),
    Response(ResponseType),
    Reserved(u8),
}

/// The code byte of class `class` and detail `detail`, as in `class.detail`:
/// the class in the three high bits, the detail in the five low bits.
pub open spec fn code_byte(class: int, detail: int) -> u8 {
    (class * 32 + detail) as u8
}

/// The detail of a request method, whose class is 0; the unknown marker has
/// none.
pub open spec fn request_detail(method: RequestType) -> Option<int> {
    match method {
        RequestType::Get => Some(1),
        RequestType::Post => Some(2),
        RequestType::Put => Some(3),
        RequestType::Delete => Some(4),
        RequestType::Fetch => Some(5),
        RequestType::Patch => Some(6),
        RequestType::IPatch => Some(7),
        RequestType::UnKnown => None,
    }
}

/// The class and the detail of a response code; the unknown marker has
/// none.
pub open spec fn response_code(status: ResponseType) -> Option<(int, int)> {
    match status {
        ResponseType::Created => Some((2, 1)),
        ResponseType::Deleted => Some((2, 2)),
        ResponseType::Valid => Some((2, 3)),
        ResponseType::Changed => Some((2, 4)),
        ResponseType::Content => Some((2, 5)),
        ResponseType::Continue => Some((2, 31)),
        ResponseType::BadRequest => Some((4, 0)),
        ResponseType::Unauthorized => Some((4, 1)),
        ResponseType::BadOption => Some((4, 2)),
        ResponseType::Forbidden => Some((4, 3)),
        ResponseType::NotFound => Some((4, 4)),
        ResponseType::MethodNotAllowed => Some((4, 5)),
        ResponseType::NotAcceptable => Some((4, 6)),
        ResponseType::RequestEntityIncomplete => Some((4, 8)),
        ResponseType::PreconditionFailed => Some((4, 12)),
        ResponseType::RequestEntityTooLarge => Some((4, 13)),
        ResponseType::UnsupportedContentFormat => Some((4, 15)),
        ResponseType::TooManyRequests => Some((4, 29)),
        ResponseType::InternalServerError => Some((5, 0)),
        ResponseType::NotImplemented => Some((5, 1)),
        ResponseType::BadGateway => Some((5, 2)),
        ResponseType::ServiceUnavailable => Some((5, 3)),
        ResponseType::GatewayTimeout => Some((5, 4)),
        ResponseType::ProxyingNotSupported => Some((5, 5)),
        ResponseType::UnKnown => None,
    }
}

/// Whether the class is one of the enumerated codes: Empty, a request
/// method or a response code, the two unknown markers apart.
pub open spec fn is_registered(class: MessageClass) -> bool {
    match class {
        MessageClass::Empty => true,
        MessageClass::Request(method) => request_detail(method) is Some,
        MessageClass::Response(status) => response_code(status) is Some,
        MessageClass::Reserved(_) => false,
    }
}

/// The code byte of a class. The two unknown markers have no code of their
/// own and are written as `0xFF`; a reserved code is written as it came.
pub open spec fn byte_of_class(class: MessageClass) -> u8 {
    match class {
        MessageClass::Empty => code_byte(0, 0),
        MessageClass::Request(method) => match request_detail(method) {
            Some(detail) => code_byte(0, detail),
            None => 0xFF,
        },
        MessageClass::Response(status) => match response_code(status) {
            Some((class, detail)) => code_byte(class, detail),
            None => 0xFF,
        },
        MessageClass::Reserved(number) => number,
    }
}

/// The request method whose code byte `number` is, if there is one.
pub open spec fn request_of_byte(number: u8) -> Option<RequestType> {
    if number == byte_of_class(MessageClass::Request(RequestType::Get)) {
        Some(RequestType::Get)
    } else if number == byte_of_class(MessageClass::Request(RequestType::Post)) {
        Some(RequestType::Post)
    } else if number == byte_of_class(MessageClass::Request(RequestType::Put)) {
        Some(RequestType::Put)
    } else if number == byte_of_class(MessageClass::Request(RequestType::Delete)) {
        Some(RequestType::Delete)
    } else if number == byte_of_class(MessageClass::Request(RequestType::Fetch)) {
        Some(RequestType::Fetch)
    } else if number == byte_of_class(MessageClass::Request(RequestType::Patch)) {
        Some(RequestType::Patch)
    } else if number == byte_of_class(MessageClass::Request(RequestType::IPatch)) {
        Some(RequestType::IPatch)
    } else {
        None
    }
}

/// The response code whose code byte `number` is, if there is one.
pub open spec fn response_of_byte(number: u8) -> Option<ResponseType> {
    if number == byte_of_class(MessageClass::Response(ResponseType::Created)) {
        Some(ResponseType::Created)
    } else if number == byte_of_class(MessageClass::Response(ResponseType::Deleted)) {
        Some(ResponseType::Deleted)
    } else if number == byte_of_class(MessageClass::Response(ResponseType::Valid)) {
        Some(ResponseType::Valid)
    } else if number == byte_of_class(MessageClass::Response(ResponseType::Changed)) {
        Some(ResponseType::Changed)
    } else if number == byte_of_class(MessageClass::Response(ResponseType::Content)) {
        Some(ResponseType::Content)
    } else if number == byte_of_class(MessageClass::Response(ResponseType::Continue)) {
        Some(ResponseType::Continue)
    } else if number == byte_of_class(MessageClass::Response(ResponseType::BadRequest)) {
        Some(ResponseType::BadRequest)
    } else if number == byte_of_class(MessageClass::Response(ResponseType::Unauthorized)) {
        Some(ResponseType::Unauthorized)
    } else if number == byte_of_class(MessageClass::Response(ResponseType::BadOption)) {
        Some(ResponseType::BadOption)
    } else if number == byte_of_class(MessageClass::Response(ResponseType::Forbidden)) {
        Some(ResponseType::Forbidden)
    } else if number == byte_of_class(MessageClass::Response(ResponseType::NotFound)) {
        Some(ResponseType::NotFound)
    } else if number == byte_of_class(MessageClass::Response(ResponseType::MethodNotAllowed)) {
        Some(ResponseType::MethodNotAllowed)
    } else if number == byte_of_class(MessageClass::Response(ResponseType::NotAcceptable)) {
        Some(ResponseType::NotAcceptable)
    } else if number == byte_of_class(MessageClass::Response(ResponseType::RequestEntityIncomplete)) {
        Some(ResponseType::RequestEntityIncomplete)
    } else if number == byte_of_class(MessageClass::Response(ResponseType::PreconditionFailed)) {
        Some(ResponseType::PreconditionFailed)
    } else if number == byte_of_class(MessageClass::Response(ResponseType::RequestEntityTooLarge)) {
        Some(ResponseType::RequestEntityTooLarge)
    } else if number == byte_of_class(MessageClass::Response(ResponseType::UnsupportedContentFormat)) {
        Some(ResponseType::UnsupportedContentFormat)
    } else if number == byte_of_class(MessageClass::Response(ResponseType::TooManyRequests)) {
        Some(ResponseType::TooManyRequests)
    } else if number == byte_of_class(MessageClass::Response(ResponseType::InternalServerError)) {
        Some(ResponseType::InternalServerError)
    } else if number == byte_of_class(MessageClass::Response(ResponseType::NotImplemented)) {
        Some(ResponseType::NotImplemented)
    } else if number == byte_of_class(MessageClass::Response(ResponseType::BadGateway)) {
        Some(ResponseType::BadGateway)
    } else if number == byte_of_class(MessageClass::Response(ResponseType::ServiceUnavailable)) {
        Some(ResponseType::ServiceUnavailable)
    } else if number == byte_of_class(MessageClass::Response(ResponseType::GatewayTimeout)) {
        Some(ResponseType::GatewayTimeout)
    } else if number == byte_of_class(MessageClass::Response(ResponseType::ProxyingNotSupported)) {
        Some(ResponseType::ProxyingNotSupported)
    } else {
        None
    }
}

/// The class that a code byte stands for: the enumerated code with that
/// byte, else the byte itself as a reserved code.
pub open spec fn class_of_byte(number: u8) -> MessageClass {
    if number == byte_of_class(MessageClass::Empty) {
        MessageClass::Empty
    } else {
        match request_of_byte(number) {
            Some(method) => MessageClass::Request(method),
            None => match response_of_byte(number) {
                Some(status) => MessageClass::Response(status),
                None => MessageClass::Reserved(number),
            },
        }
    }
}

proof fn lemma_request_of_byte(method: RequestType)
    requires
        request_detail(method) is Some,
    ensures
        0 < byte_of_class(MessageClass::Request(method)) < 0x20,
        request_of_byte(byte_of_class(MessageClass::Request(method))) == Some(method),
{
    match method {
        RequestType::Get => {
            assert(request_of_byte(byte_of_class(MessageClass::Request(RequestType::Get)))
                == Some(RequestType::Get));
        },
        RequestType::Post => {
            assert(request_of_byte(byte_of_class(MessageClass::Request(RequestType::Post)))
                == Some(RequestType::Post));
        },
        RequestType::Put => {
            assert(request_of_byte(byte_of_class(MessageClass::Request(RequestType::Put)))
                == Some(RequestType::Put));
        },
        RequestType::Delete => {
            assert(request_of_byte(byte_of_class(MessageClass::Request(RequestType::Delete)))
                == Some(RequestType::Delete));
        },
        RequestType::Fetch => {
            assert(request_of_byte(byte_of_class(MessageClass::Request(RequestType::Fetch)))
                == Some(RequestType::Fetch));
        },
        RequestType::Patch => {
            assert(request_of_byte(byte_of_class(MessageClass::Request(RequestType::Patch)))
                == Some(RequestType::Patch));
        },
        RequestType::IPatch => {
            assert(request_of_byte(byte_of_class(MessageClass::Request(RequestType::IPatch)))
                == Some(RequestType::IPatch));
        },
        RequestType::UnKnown => {},
    }
}

proof fn lemma_response_of_byte(status: ResponseType)
    requires
        response_code(status) is Some,
    ensures
        0x40 <= byte_of_class(MessageClass::Response(status)) < 0xC0,
        response_of_byte(byte_of_class(MessageClass::Response(status))) == Some(status),
{
    match status {
        ResponseType::Created => {
            assert(response_of_byte(byte_of_class(MessageClass::Response(ResponseType::Created)))
                == Some(ResponseType::Created));
        },
        ResponseType::Deleted => {
            assert(response_of_byte(byte_of_class(MessageClass::Response(ResponseType::Deleted)))
                == Some(ResponseType::Deleted));
        },
        ResponseType::Valid => {
            assert(response_of_byte(byte_of_class(MessageClass::Response(ResponseType::Valid)))
                == Some(ResponseType::Valid));
        },
        ResponseType::Changed => {
            assert(response_of_byte(byte_of_class(MessageClass::Response(ResponseType::Changed)))
                == Some(ResponseType::Changed));
        },
        ResponseType::Content => {
            assert(response_of_byte(byte_of_class(MessageClass::Response(ResponseType::Content)))
                == Some(ResponseType::Content));
        },
        ResponseType::Continue => {
            assert(response_of_byte(byte_of_class(MessageClass::Response(ResponseType::Continue)))
                == Some(ResponseType::Continue));
        },
        ResponseType::BadRequest => {
            assert(response_of_byte(byte_of_class(MessageClass::Response(ResponseType::BadRequest)))
                == Some(ResponseType::BadRequest));
        },
        ResponseType::Unauthorized => {
            assert(response_of_byte(byte_of_class(MessageClass::Response(ResponseType::Unauthorized)))
                == Some(ResponseType::Unauthorized));
        },
        ResponseType::BadOption => {
            assert(response_of_byte(byte_of_class(MessageClass::Response(ResponseType::BadOption)))
                == Some(ResponseType::BadOption));
        },
        ResponseType::Forbidden => {
            assert(response_of_byte(byte_of_class(MessageClass::Response(ResponseType::Forbidden)))
                == Some(ResponseType::Forbidden));
        },
        ResponseType::NotFound => {
            assert(response_of_byte(byte_of_class(MessageClass::Response(ResponseType::NotFound)))
                == Some(ResponseType::NotFound));
        },
        ResponseType::MethodNotAllowed => {
            assert(response_of_byte(byte_of_class(MessageClass::Response(ResponseType::MethodNotAllowed)))
                == Some(ResponseType::MethodNotAllowed));
        },
        ResponseType::NotAcceptable => {
            assert(response_of_byte(byte_of_class(MessageClass::Response(ResponseType::NotAcceptable)))
                == Some(ResponseType::NotAcceptable));
        },
        ResponseType::RequestEntityIncomplete => {
            assert(response_of_byte(byte_of_class(MessageClass::Response(ResponseType::RequestEntityIncomplete)))
                == Some(ResponseType::RequestEntityIncomplete));
        },
        ResponseType::PreconditionFailed => {
            assert(response_of_byte(byte_of_class(MessageClass::Response(ResponseType::PreconditionFailed)))
                == Some(ResponseType::PreconditionFailed));
        },
        ResponseType::RequestEntityTooLarge => {
            assert(response_of_byte(byte_of_class(MessageClass::Response(ResponseType::RequestEntityTooLarge)))
                == Some(ResponseType::RequestEntityTooLarge));
        },
        ResponseType::UnsupportedContentFormat => {
            assert(response_of_byte(byte_of_class(MessageClass::Response(ResponseType::UnsupportedContentFormat)))
                == Some(ResponseType::UnsupportedContentFormat));
        },
        ResponseType::TooManyRequests => {
            assert(response_of_byte(byte_of_class(MessageClass::Response(ResponseType::TooManyRequests)))
                == Some(ResponseType::TooManyRequests));
        },
        ResponseType::InternalServerError => {
            assert(response_of_byte(byte_of_class(MessageClass::Response(ResponseType::InternalServerError)))
                == Some(ResponseType::InternalServerError));
        },
        ResponseType::NotImplemented => {
            assert(response_of_byte(byte_of_class(MessageClass::Response(ResponseType::NotImplemented)))
                == Some(ResponseType::NotImplemented));
        },
        ResponseType::BadGateway => {
            assert(response_of_byte(byte_of_class(MessageClass::Response(ResponseType::BadGateway)))
                == Some(ResponseType::BadGateway));
        },
        ResponseType::ServiceUnavailable => {
            assert(response_of_byte(byte_of_class(MessageClass::Response(ResponseType::ServiceUnavailable)))
                == Some(ResponseType::ServiceUnavailable));
        },
        ResponseType::GatewayTimeout => {
            assert(response_of_byte(byte_of_class(MessageClass::Response(ResponseType::GatewayTimeout)))
                == Some(ResponseType::GatewayTimeout));
        },
        ResponseType::ProxyingNotSupported => {
            assert(response_of_byte(byte_of_class(MessageClass::Response(ResponseType::ProxyingNotSupported)))
                == Some(ResponseType::ProxyingNotSupported));
        },
        ResponseType::UnKnown => {},
    }
}

proof fn lemma_request_of_other_byte(number: u8)
    requires
        number == 0 || number >= 0x20,
    ensures
        request_of_byte(number) is None,
{
}

/// An enumerated code is read back from its byte.
pub proof fn lemma_class_of_registered(class: MessageClass)
    requires
        is_registered(class),
    ensures
        class_of_byte(byte_of_class(class)) == class,
{
    match class {
        MessageClass::Empty => {},
        MessageClass::Request(method) => {
            lemma_request_of_byte(method);
        },
        MessageClass::Response(status) => {
            lemma_response_of_byte(status);
            lemma_request_of_other_byte(byte_of_class(class));
        },
        MessageClass::Reserved(_) => {},
    }
}

/// No two enumerated codes share a byte.
pub proof fn lemma_registered_codes_are_distinct(a: MessageClass, b: MessageClass)
    requires
        is_registered(a),
        is_registered(b),
        byte_of_class(a) == byte_of_class(b),
    ensures
        a == b,
{
    lemma_class_of_registered(a);
    lemma_class_of_registered(b);
}

/// A byte is read as a reserved code exactly where no enumerated code has
/// it.
pub proof fn lemma_reserved_codes(number: u8)
    ensures
        class_of_byte(number) is Reserved <==> forall|class: MessageClass|
            is_registered(class) ==> byte_of_class(class) != number,
{
    if class_of_byte(number) is Reserved {
        assert forall|class: MessageClass| is_registered(class) implies byte_of_class(class)
            != number by {
            lemma_class_of_registered(class);
        }
    } else {
        lemma_code_byte_read(number);
    }
}

proof fn lemma_code_byte_read(number: u8)
    ensures
        !(class_of_byte(number) is Reserved) ==> is_registered(class_of_byte(number))
            && byte_of_class(class_of_byte(number)) == number,
        byte_of_class(class_of_byte(number)) == number,
{
    if number != 0 {
        match request_of_byte(number) {
            Some(method) => {},
            None => match response_of_byte(number) {
                Some(status) => {},
                None => {},
            },
        }
    }
}

impl From<u8> for MessageClass {
    fn from(number: u8) -> (class: MessageClass) {
        let class = match number {
            0x00 => MessageClass::Empty,
            0x01 => MessageClass::Request(RequestType::Get),
            0x02 => MessageClass::Request(RequestType::Post),
            0x03 => MessageClass::Request(RequestType::Put),
            0x04 => MessageClass::Request(RequestType::Delete),
            0x05 => MessageClass::Request(RequestType::Fetch),
            0x06 => MessageClass::Request(RequestType::Patch),
            0x07 => MessageClass::Request(RequestType::IPatch),
            0x41 => MessageClass::Response(ResponseType::Created),
            0x42 => MessageClass::Response(ResponseType::Deleted),
            0x43 => MessageClass::Response(ResponseType::Valid),
            0x44 => MessageClass::Response(ResponseType::Changed),
            0x45 => MessageClass::Response(ResponseType::Content),
            0x5F => MessageClass::Response(ResponseType::Continue),
            0x80 => MessageClass::Response(ResponseType::BadRequest),
            0x81 => MessageClass::Response(ResponseType::Unauthorized),
            0x82 => MessageClass::Response(ResponseType::BadOption),
            0x83 => MessageClass::Response(ResponseType::Forbidden),
            0x84 => MessageClass::Response(ResponseType::NotFound),
            0x85 => MessageClass::Response(ResponseType::MethodNotAllowed),
            0x86 => MessageClass::Response(ResponseType::NotAcceptable),
            0x88 => MessageClass::Response(ResponseType::RequestEntityIncomplete),
            0x8C => MessageClass::Response(ResponseType::PreconditionFailed),
            0x8D => MessageClass::Response(ResponseType::RequestEntityTooLarge),
            0x8F => MessageClass::Response(ResponseType::UnsupportedContentFormat),
            0x9D => MessageClass::Response(ResponseType::TooManyRequests),
            0xA0 => MessageClass::Response(ResponseType::InternalServerError),
            0xA1 => MessageClass::Response(ResponseType::NotImplemented),
            0xA2 => MessageClass::Response(ResponseType::BadGateway),
            0xA3 => MessageClass::Response(ResponseType::ServiceUnavailable),
            0xA4 => MessageClass::Response(ResponseType::GatewayTimeout),
            0xA5 => MessageClass::Response(ResponseType::ProxyingNotSupported),
            _ => MessageClass::Reserved(number),
        };
        class
    }
}

impl FromSpecImpl<u8> for MessageClass {
    open spec fn obeys_from_spec() -> bool {
        true
    }

    open spec fn from_spec(number: u8) -> MessageClass {
        class_of_byte(number)
    }
}

impl From<MessageClass> for u8 {
    fn from(class: MessageClass) -> (number: u8) {
        match class {
            MessageClass::Empty => 0x00,
            MessageClass::Request(RequestType::Get) => 0x01,
            MessageClass::Request(RequestType::Post) => 0x02,
            MessageClass::Request(RequestType::Put) => 0x03,
            MessageClass::Request(RequestType::Delete) => 0x04,
            MessageClass::Request(RequestType::Fetch) => 0x05,
            MessageClass::Request(RequestType::Patch) => 0x06,
            MessageClass::Request(RequestType::IPatch) => 0x07,
            MessageClass::Response(ResponseType::Created) => 0x41,
            MessageClass::Response(ResponseType::Deleted) => 0x42,
            MessageClass::Response(ResponseType::Valid) => 0x43,
            MessageClass::Response(ResponseType::Changed) => 0x44,
            MessageClass::Response(ResponseType::Content) => 0x45,
            MessageClass::Response(ResponseType::Continue) => 0x5F,
            MessageClass::Response(ResponseType::BadRequest) => 0x80,
            MessageClass::Response(ResponseType::Unauthorized) => 0x81,
            MessageClass::Response(ResponseType::BadOption) => 0x82,
            MessageClass::Response(ResponseType::Forbidden) => 0x83,
            MessageClass::Response(ResponseType::NotFound) => 0x84,
            MessageClass::Response(ResponseType::MethodNotAllowed) => 0x85,
            MessageClass::Response(ResponseType::NotAcceptable) => 0x86,
            MessageClass::Response(ResponseType::RequestEntityIncomplete) => 0x88,
            MessageClass::Response(ResponseType::PreconditionFailed) => 0x8C,
            MessageClass::Response(ResponseType::RequestEntityTooLarge) => 0x8D,
            MessageClass::Response(ResponseType::UnsupportedContentFormat) => 0x8F,
            MessageClass::Response(ResponseType::TooManyRequests) => 0x9D,
            MessageClass::Response(ResponseType::InternalServerError) => 0xA0,
            MessageClass::Response(ResponseType::NotImplemented) => 0xA1,
            MessageClass::Response(ResponseType::BadGateway) => 0xA2,
            MessageClass::Response(ResponseType::ServiceUnavailable) => 0xA3,
            MessageClass::Response(ResponseType::GatewayTimeout) => 0xA4,
            MessageClass::Response(ResponseType::ProxyingNotSupported) => 0xA5,
            MessageClass::Reserved(number) => number,
            _ => 0xFF,
        }
    }
}

impl FromSpecImpl<MessageClass> for u8 {
    open spec fn obeys_from_spec() -> bool {
        true
    }

    open spec fn from_spec(class: MessageClass) -> u8 {
        byte_of_class(class)
    }
}

/// No code byte is lost: the class that stands for a byte is written back as
/// that byte.
pub proof fn lemma_code_byte_round_trip(number: u8)
    ensures
        byte_of_class(class_of_byte(number)) == number,
{
    lemma_code_byte_read(number);
}

/// The character of a decimal digit.
pub open spec fn digit_char(d: int) -> char
    recommends
        0 <= d <= 9,
{
    (d + 48) as u8 as char
}

/// The human form `C.DD` of a code byte: the class in one digit, a dot, the
/// detail in two digits.
pub open spec fn code_text(code: u8) -> Seq<char> {
    seq![
        digit_char(code as int / 32),
        '.',
        digit_char((code as int % 32) / 10),
        digit_char((code as int % 32) % 10),
    ]
}

impl MessageClass {
    /// Renders the code as `C.DD`.
    pub fn to_string(&self) -> (s: String)
        ensures
            s@ == code_text(byte_of_class(*self)),
    {
        let code: u8 = u8::from(*self);
        code_string(code / 32, code % 32)
    }
}

/// The text of a code: one decimal digit for the class, a dot, and the
/// detail in two decimal digits.
fn code_string(class_code: u8, detail_code: u8) -> (s: String)
    requires
        class_code < 8,
        detail_code < 32,
    ensures
        s@ == seq![
            digit_char(class_code as int),
            '.',
            digit_char(detail_code as int / 10),
            digit_char(detail_code as int % 10),
        ],
{
    let mut bytes: Vec<u8> = Vec::new();
    bytes.push(class_code + 48);
    bytes.push(46);
    bytes.push(detail_code / 10 + 48);
    bytes.push(detail_code % 10 + 48);
    let s = crate::text::ascii_string(bytes);
    assert(s@ =~= seq![
        digit_char(class_code as int),
        '.',
        digit_char(detail_code as int / 10),
        digit_char(detail_code as int % 10),
    ]);
    s
}

/// The value of a run of decimal digits.
pub open spec fn decimal_value(digits: Seq<u8>) -> int
    decreases digits.len(),
{
    if digits.len() == 0 {
        0
    } else {
        decimal_value(digits.drop_last()) * 10 + (digits.last() as int - 48)
    }
}

/// Whether every byte is an ASCII decimal digit.
pub open spec fn all_digits(s: Seq<u8>) -> bool {
    forall|i: int| 0 <= i < s.len() ==> 48 <= #[trigger] s[i] <= 57
}

/// The number that a text spells as an unsigned byte: an optional `+`, then
/// one or more decimal digits whose value is at most 255.
pub open spec fn parse_u8_text(s: Seq<u8>) -> Option<u8> {
    let digits = if s.len() > 0 && s[0] == 43 {
        s.drop_first()
    } else {
        s
    };
    if digits.len() > 0 && all_digits(digits) && decimal_value(digits) <= 255 {
        Some(decimal_value(digits) as u8)
    } else {
        None
    }
}

/// The position of the first dot in `s`, or its length where it has none.
pub open spec fn first_dot(s: Seq<u8>) -> int
    decreases s.len(),
{
    if s.len() == 0 {
        0
    } else if s[0] == 46 {
        0
    } else {
        1 + first_dot(s.drop_first())
    }
}

/// The code byte that a text of the form `C.DD` spells: a class below 8
/// before the one dot and a detail below 32 behind it.
pub open spec fn parse_code_text(s: Seq<u8>) -> Option<u8> {
    let dot = first_dot(s);
    if dot >= s.len() {
        None
    } else {
        match (
            parse_u8_text(s.subrange(0, dot)),
            parse_u8_text(s.subrange(dot + 1, s.len() as int)),
        ) {
            (Some(class_code), Some(detail_code)) => if class_code < 8 && detail_code < 32 {
                Some((class_code * 32 + detail_code) as u8)
            } else {
                None
            },
            _ => None,
        }
    }
}

proof fn lemma_decimal_value_prefix(s: Seq<u8>, k: int)
    requires
        all_digits(s),
        0 <= k <= s.len(),
    ensures
        0 <= decimal_value(s.subrange(0, k)) <= decimal_value(s),
    decreases s.len() - k,
{
    if k == s.len() {
        assert(s.subrange(0, k) =~= s);
        lemma_decimal_value_nonnegative(s);
    } else {
        lemma_decimal_value_prefix(s, k + 1);
        let t = s.subrange(0, k + 1);
        assert(t.drop_last() =~= s.subrange(0, k));
        assert(t.last() == s[k]);
        lemma_decimal_value_nonnegative(s.subrange(0, k));
    }
}

proof fn lemma_decimal_value_nonnegative(s: Seq<u8>)
    requires
        all_digits(s),
    ensures
        0 <= decimal_value(s),
    decreases s.len(),
{
    if s.len() > 0 {
        lemma_decimal_value_nonnegative(s.drop_last());
    }
}

proof fn lemma_first_dot(s: Seq<u8>)
    ensures
        0 <= first_dot(s) <= s.len(),
        first_dot(s) < s.len() ==> s[first_dot(s)] == 46,
        forall|i: int| 0 <= i < first_dot(s) ==> s[i] != 46,
    decreases s.len(),
{
    if s.len() > 0 && s[0] != 46 {
        let t = s.drop_first();
        lemma_first_dot(t);
        assert forall|i: int| 0 <= i < first_dot(s) implies s[i] != 46 by {
            if i > 0 {
                assert(s[i] == t[i - 1]);
            }
        }
    }
}

proof fn lemma_first_dot_is(s: Seq<u8>, k: int)
    requires
        0 <= k <= s.len(),
        forall|i: int| 0 <= i < k ==> s[i] != 46,
        k < s.len() ==> s[k] == 46,
    ensures
        first_dot(s) == k,
{
    lemma_first_dot(s);
}

/// Reads the bytes `bytes[start..end]` as an unsigned byte in decimal.
fn parse_u8(bytes: &[u8], start: usize, end: usize) -> (r: Option<u8>)
    requires
        start <= end <= bytes@.len(),
    ensures
        r == parse_u8_text(bytes@.subrange(start as int, end as int)),
{
    let ghost s = bytes@.subrange(start as int, end as int);
    let mut i: usize = start;
    if i < end && bytes[i] == 43 {
        i = i + 1;
    }
    let ghost digits = if s.len() > 0 && s[0] == 43 {
        s.drop_first()
    } else {
        s
    };
    assert(digits =~= bytes@.subrange(i as int, end as int));
    if i == end {
        return None;
    }
    let first: usize = i;
    let mut value: u16 = 0;
    while i < end
        invariant
            start <= first <= i <= end <= bytes@.len(),
            first < end,
            digits == bytes@.subrange(first as int, end as int),
            parse_u8_text(bytes@.subrange(start as int, end as int)) == (if all_digits(digits)
                && decimal_value(digits) <= 255 {
                Some(decimal_value(digits) as u8)
            } else {
                None
            }),
            all_digits(digits.subrange(0, i - first)),
            value == decimal_value(digits.subrange(0, i - first)),
            value <= 255,
        decreases end - i,
    {
        let b = bytes[i];
        if b < 48 || b > 57 {
            assert(digits[i - first] == b);
            return None;
        }
        let ghost before = digits.subrange(0, i - first);
        let ghost after = digits.subrange(0, i - first + 1);
        assert(after.drop_last() =~= before);
        assert(after.last() == b);
        let next: u16 = value * 10 + (b - 48) as u16;
        assert(next == decimal_value(after));
        assert(all_digits(after)) by {
            assert forall|j: int| 0 <= j < after.len() implies 48 <= #[trigger] after[j] <= 57 by {
                if j < before.len() {
                    assert(before[j] == after[j]);
                }
            }
        }
        if next > 255 {
            proof {
                if all_digits(digits) {
                    lemma_decimal_value_prefix(digits, i - first + 1);
                }
            }
            return None;
        }
        value = next;
        i = i + 1;
    }
    assert(digits.subrange(0, i - first) =~= digits);
    Some(value as u8)
}

/// Reads a code in its human form `C.DD`; `None` where the text is not of
/// that form or a part is out of range.
pub fn parse_code(code: &str) -> (r: Option<u8>)
    ensures
        r == parse_code_text(code.spec_bytes()),
{
    let bytes = code.as_bytes();
    let n = bytes.len();
    let mut dot: usize = 0;
    while dot < n && bytes[dot] != 46
        invariant
            dot <= n,
            n == bytes@.len(),
            forall|i: int| 0 <= i < dot ==> bytes@[i] != 46,
        decreases n - dot,
    {
        dot = dot + 1;
    }
    proof {
        lemma_first_dot_is(bytes@, dot as int);
    }
    if dot >= n {
        return None;
    }
    let class_code = parse_u8(bytes, 0, dot);
    let detail_code = parse_u8(bytes, dot + 1, n);
    match (class_code, detail_code) {
        (Some(c), Some(d)) => {
            if c < 8 && d < 32 {
                Some(c * 32 + d)
            } else {
                None
            }
        },
        _ => None,
    }
}

/// The message header.
#[derive(Debug, Clone, Copy, PartialEq, Eq, Structural)]
pub struct Header {
    /// Version (two bits), type (two bits) and token length (four bits).
    pub ver_type_tkl: u8,
    pub code: MessageClass,
    pub message_id: u16,
}

/// The message type that two type bits stand for.
pub open spec fn type_of_bits(bits: u8) -> MessageType {
    if bits == 0 {
        MessageType::Confirmable
    } else if bits == 1 {
        MessageType::NonConfirmable
    } else if bits == 2 {
        MessageType::Acknowledgement
    } else {
        MessageType::Reset
    }
}

/// The two type bits of a message type.
pub open spec fn bits_of_type(t: MessageType) -> u8 {
    match t {
        MessageType::Confirmable => 0,
        MessageType::NonConfirmable => 1,
        MessageType::Acknowledgement => 2,
        MessageType::Reset => 3,
    }
}

impl Default for Header {
    /// Version 1, Confirmable, no token, GET, message id 0.
    fn default() -> (h: Header)
        ensures
            h.packed() == 0x40,
            h.code == MessageClass::Request(RequestType::Get),
            h.message_id == 0,
    {
        Header::from_raw(&HeaderRaw::default())
    }
}

impl Header {
    /// The byte that packs version (two bits), type (two bits) and token
    /// length (four bits).
    pub open spec fn packed(self) -> u8 {
        self.ver_type_tkl
    }

    /// The header with the given packed byte, code and message id.
    pub open spec fn spec_new(packed: u8, code: MessageClass, message_id: u16) -> Header {
        Header { ver_type_tkl: packed, code, message_id }
    }

    /// The version: the two high bits of the packed byte.
    pub open spec fn version(self) -> u8 {
        self.packed() >> 6
    }

    /// The message type: bits 4 and 5 of the packed byte.
    pub open spec fn message_type(self) -> MessageType {
        type_of_bits((self.packed() & 0x30) >> 4)
    }

    /// The token length: the four low bits of the packed byte.
    pub open spec fn token_length(self) -> u8 {
        self.packed() & 0x0F
    }

    /// This header with the version set: only the two low bits of `v` fit.
    pub open spec fn with_version(self, v: u8) -> Header {
        Header { ver_type_tkl: (v << 6) | (self.ver_type_tkl & 0x3F), ..self }
    }

    /// This header with the message type set.
    pub open spec fn with_type(self, t: MessageType) -> Header {
        Header { ver_type_tkl: (bits_of_type(t) << 4) | (self.ver_type_tkl & 0xCF), ..self }
    }

    /// This header with the token length set.
    pub open spec fn with_token_length(self, tkl: u8) -> Header {
        Header { ver_type_tkl: tkl | (self.ver_type_tkl & 0xF0), ..self }
    }

    /// The four bytes of this header on the wire.
    pub open spec fn bytes(self) -> Seq<u8> {
        header_bytes(self.packed(), byte_of_class(self.code), self.message_id)
    }

    /// The header that the first four bytes of `buf` spell.
    pub open spec fn parse(buf: Seq<u8>) -> Header
        recommends
            buf.len() >= 4,
    {
        Header::spec_new(buf[0], class_of_byte(buf[1]), (buf[2] as int * 256 + buf[3] as int) as u16)
    }

    /// Creates a new header.
    pub fn new() -> (h: Header)
        ensures
            h.packed() == 0x40,
            h.code == MessageClass::Request(RequestType::Get),
            h.message_id == 0,
    {
        Header::from_raw(&HeaderRaw::default())
    }

    /// Creates a new header from a raw header.
    pub fn from_raw(raw: &HeaderRaw) -> (h: Header)
        ensures
            h == Header::spec_new(
                raw.spec_ver_type_tkl(),
                class_of_byte(raw.spec_code()),
                raw.spec_message_id(),
            ),
            h.packed() == raw.spec_ver_type_tkl(),
            h.code == class_of_byte(raw.spec_code()),
            h.message_id == raw.spec_message_id(),
    {
        Header {
            ver_type_tkl: raw.ver_type_tkl,
            code: MessageClass::from(raw.code),
            message_id: raw.message_id,
        }
    }

    /// Returns the raw header.
    pub fn to_raw(&self) -> (raw: HeaderRaw)
        ensures
            raw.spec_ver_type_tkl() == self.packed(),
            raw.spec_code() == byte_of_class(self.code),
            raw.spec_message_id() == self.message_id,
            raw.bytes() == self.bytes(),
    {
        HeaderRaw {
            ver_type_tkl: self.ver_type_tkl,
            code: u8::from(self.code),
            message_id: self.message_id,
        }
    }

    /// Sets the version; only its two low bits fit the field.
    #[inline]
    pub fn set_version(&mut self, v: u8)
        ensures
            *final(self) == old(self).with_version(v),
            final(self).packed() == (v << 6) | (old(self).packed() & 0x3F),
            final(self).version() == v & 3,
            final(self).message_type() == old(self).message_type(),
            final(self).token_length() == old(self).token_length(),
            final(self).code == old(self).code,
            final(self).message_id == old(self).message_id,
    {
        let type_tkl = 0x3F & self.ver_type_tkl;
        let ghost before = self.ver_type_tkl;
        self.ver_type_tkl = v << 6 | type_tkl;
        assert(((v << 6) | (0x3Fu8 & before)) >> 6 == v & 3) by (bit_vector);
        assert((((v << 6) | (0x3Fu8 & before)) & 0x30) >> 4 == (before & 0x30) >> 4)
            by (bit_vector);
        assert(((v << 6) | (0x3Fu8 & before)) & 0x0F == before & 0x0F) by (bit_vector);
        assert(0x3Fu8 & before == before & 0x3F) by (bit_vector);
    }

    /// Returns the version.
    #[inline]
    pub fn get_version(&self) -> (v: u8)
        ensures
            v == self.version(),
            v < 4,
    {
        let packed = self.ver_type_tkl;
        assert(packed >> 6 < 4) by (bit_vector);
        self.ver_type_tkl >> 6
    }

    /// Sets the message type.
    #[inline]
    pub fn set_type(&mut self, t: MessageType)
        ensures
            *final(self) == old(self).with_type(t),
            final(self).packed() == (bits_of_type(t) << 4) | (old(self).packed() & 0xCF),
            final(self).message_type() == t,
            final(self).version() == old(self).version(),
            final(self).token_length() == old(self).token_length(),
            final(self).code == old(self).code,
            final(self).message_id == old(self).message_id,
    {
        let tn: u8 = match t {
            MessageType::Confirmable => 0,
            MessageType::NonConfirmable => 1,
            MessageType::Acknowledgement => 2,
            MessageType::Reset => 3,
        };
        let ver_tkl = 0xCF & self.ver_type_tkl;
        let ghost before = self.ver_type_tkl;
        self.ver_type_tkl = tn << 4 | ver_tkl;
        assert(tn < 4 ==> (((tn << 4) | (0xCFu8 & before)) & 0x30) >> 4 == tn) by (bit_vector);
        assert(tn < 4 ==> ((tn << 4) | (0xCFu8 & before)) >> 6 == before >> 6) by (bit_vector);
        assert(tn < 4 ==> ((tn << 4) | (0xCFu8 & before)) & 0x0F == before & 0x0F)
            by (bit_vector);
        assert(0xCFu8 & before == before & 0xCF) by (bit_vector);
    }

    /// Returns the message type.
    #[inline]
    pub fn get_type(&self) -> (t: MessageType)
        ensures
            t == self.message_type(),
    {
        let packed = self.ver_type_tkl;
        let tn = (0x30 & self.ver_type_tkl) >> 4;
        assert((0x30u8 & packed) >> 4 == (packed & 0x30) >> 4) by (bit_vector);
        assert((packed & 0x30) >> 4 < 4) by (bit_vector);
        if tn == 0 {
            MessageType::Confirmable
        } else if tn == 1 {
            MessageType::NonConfirmable
        } else if tn == 2 {
            MessageType::Acknowledgement
        } else {
            MessageType::Reset
        }
    }

    /// Sets the token length, which has to fit the four bits of its field.
    #[inline]
    pub fn set_token_length(&mut self, tkl: u8)
        requires
            tkl < 16,
        ensures
            *final(self) == old(self).with_token_length(tkl),
            final(self).packed() == tkl | (old(self).packed() & 0xF0),
            final(self).token_length() == tkl,
            final(self).version() == old(self).version(),
            final(self).message_type() == old(self).message_type(),
            final(self).code == old(self).code,
            final(self).message_id == old(self).message_id,
    {
        let ver_type = 0xF0 & self.ver_type_tkl;
        let ghost before = self.ver_type_tkl;
        self.ver_type_tkl = tkl | ver_type;
        assert(tkl < 16 ==> (tkl | (0xF0u8 & before)) & 0x0F == tkl) by (bit_vector);
        assert(tkl < 16 ==> (tkl | (0xF0u8 & before)) >> 6 == before >> 6) by (bit_vector);
        assert(tkl < 16 ==> ((tkl | (0xF0u8 & before)) & 0x30) >> 4 == (before & 0x30) >> 4)
            by (bit_vector);
        assert(0xF0u8 & before == before & 0xF0) by (bit_vector);
    }

    /// Returns the token length.
    #[inline]
    pub fn get_token_length(&self) -> (tkl: u8)
        ensures
            tkl == self.token_length(),
            tkl < 16,
    {
        let packed = self.ver_type_tkl;
        assert(0x0Fu8 & packed == packed & 0x0F) by (bit_vector);
        assert(packed & 0x0F < 16) by (bit_vector);
        0x0F & self.ver_type_tkl
    }

    /// Sets the message code from its human form `C.DD`.
    pub fn set_code(&mut self, code: &str)
        requires
            parse_code_text(code.spec_bytes()) is Some,
        ensures
            final(self).code == class_of_byte(parse_code_text(code.spec_bytes())->0),
            final(self).packed() == old(self).packed(),
            final(self).message_id == old(self).message_id,
    {
        match parse_code(code) {
            Some(number) => {
                self.code = MessageClass::from(number);
            },
            None => {},
        }
    }

    /// Returns the message code in its human form `C.DD`.
    pub fn get_code(&self) -> (s: String)
        ensures
            s@ == code_text(byte_of_class(self.code)),
    {
        self.code.to_string()
    }
}

/// The human form of a code is read back as the code byte that it was
/// written for.
pub proof fn lemma_code_text_round_trip(code: u8)
    ensures
        parse_code_text(vstd::utf8::encode_utf8(code_text(code))) == Some(code),
{
    let class_code = code as int / 32;
    let detail_code = code as int % 32;
    let bytes = seq![
        (class_code + 48) as u8,
        46u8,
        (detail_code / 10 + 48) as u8,
        (detail_code % 10 + 48) as u8,
    ];
    assert(crate::text::ascii_text(bytes) =~= code_text(code));
    crate::text::lemma_ascii_bytes(bytes);
    assert(vstd::utf8::encode_utf8(code_text(code)) == bytes);
    reveal_with_fuel(first_dot, 3);
    assert(first_dot(bytes) == 1);
    let class_part = bytes.subrange(0, 1);
    let detail_part = bytes.subrange(2, 4);
    reveal_with_fuel(decimal_value, 3);
    assert(class_part.drop_last() =~= Seq::<u8>::empty());
    assert(decimal_value(class_part) == class_code);
    assert(detail_part.drop_last() =~= seq![(detail_code / 10 + 48) as u8]);
    assert(detail_part.drop_last().drop_last() =~= Seq::<u8>::empty());
    assert(decimal_value(detail_part) == detail_code);
    assert(all_digits(class_part));
    assert(all_digits(detail_part));
}

/// A header is written and read back unchanged where its code is one that a
/// byte stands for.
pub proof fn lemma_header_round_trip(h: Header)
    requires
        class_of_byte(byte_of_class(h.code)) == h.code,
    ensures
        h.bytes().len() == 4,
        Header::parse(h.bytes()) == h,
{
}

} // verus!
