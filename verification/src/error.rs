//! The errors of the crate.

use vstd::prelude::*;

use vstd::string::StringExecFns;

use crate::header::ResponseType;
use crate::text::{decimal_string, decimal_text};

verus! {

/// The errors that can occur when encoding/decoding packets.
#[derive(Debug, Clone, Copy, PartialEq, Eq, Structural)]
pub enum MessageError {
    InvalidHeader,
    InvalidPacketLength,
    InvalidTokenLength,
    InvalidOptionDelta,
    InvalidOptionLength,
}

impl MessageError {
    /// The human-readable description of the error.
    pub open spec fn text(self) -> Seq<char> {
        match self {
            MessageError::InvalidHeader => "CoAP error: invalid header"@,
            MessageError::InvalidPacketLength => {
                "CoAP error: invalid packet length, consider using BlockHandler"@
            },
            MessageError::InvalidTokenLength => "CoAP error: invalid token length"@,
            MessageError::InvalidOptionDelta => "CoAP error: invalid option delta"@,
            MessageError::InvalidOptionLength => "CoAP error: invalid option length"@,
        }
    }

    /// Renders the error for display.
    pub fn to_string(&self) -> (s: String)
        ensures
            s@ == self.text(),
    {
        match self {
            MessageError::InvalidHeader => "CoAP error: invalid header".to_owned(),
            MessageError::InvalidPacketLength => {
                "CoAP error: invalid packet length, consider using BlockHandler".to_owned()
            },
            MessageError::InvalidTokenLength => "CoAP error: invalid token length".to_owned(),
            MessageError::InvalidOptionDelta => "CoAP error: invalid option delta".to_owned(),
            MessageError::InvalidOptionLength => "CoAP error: invalid option length".to_owned(),
        }
    }
}

/// The error that can occur when parsing a content-format.
#[derive(Debug, Clone, Copy, PartialEq, Eq, Structural)]
pub struct InvalidContentFormat;

impl InvalidContentFormat {
    /// Renders the error for display.
    pub fn to_string(&self) -> (s: String)
        ensures
            s@ == "CoAP error: invalid content-format number"@,
    {
        "CoAP error: invalid content-format number".to_owned()
    }
}

/// The error that can occur when parsing an observe option value.
#[derive(Debug, Clone, Copy, PartialEq, Eq, Structural)]
pub struct InvalidObserve;

impl InvalidObserve {
    /// Renders the error for display.
    pub fn to_string(&self) -> (s: String)
        ensures
            s@ == "CoAP error: invalid observe option number"@,
    {
        "CoAP error: invalid observe option number".to_owned()
    }
}

/// The error that can occur when parsing an option value.
#[derive(Debug, Clone, PartialEq)]
pub struct IncompatibleOptionValueFormat {
    pub message: String,
}

impl IncompatibleOptionValueFormat {
    /// Renders the error for display.
    pub fn to_string(&self) -> (s: String)
        ensures
            s@ == "Incompatible option value: "@ + self.message@,
    {
        let mut s = "Incompatible option value: ".to_owned();
        s.append(self.message.as_str());
        s
    }
}

/// The errors that can occur when constructing a new block value.
#[derive(Debug, PartialEq)]
pub enum InvalidBlockValue {
    SizeExponentEncodingError(usize),
    TypeBoundsError(core::num::TryFromIntError),
}

/// The description of a block number that does not fit its type.
pub open spec fn type_bounds_text() -> Seq<char> {
    "size provided is outside type bounds: out of range integral type conversion attempted"@
}

/// The description of a size that no size exponent expresses.
pub open spec fn size_exponent_text(size: usize) -> Seq<char> {
    "size cannot be encoded "@ + decimal_text(size as nat)
}

impl InvalidBlockValue {
    /// The human-readable description of the error.
    pub open spec fn text(self) -> Seq<char> {
        match self {
            InvalidBlockValue::SizeExponentEncodingError(size) => size_exponent_text(size),
            InvalidBlockValue::TypeBoundsError(_) => type_bounds_text(),
        }
    }

    /// Renders the error for display.
    pub fn to_string(&self) -> (s: String)
        ensures
            s@ == self.text(),
    {
        match self {
            InvalidBlockValue::SizeExponentEncodingError(size) => {
                let mut s = "size cannot be encoded ".to_owned();
                s.append(decimal_string(*size as u128).as_str());
                s
            },
            InvalidBlockValue::TypeBoundsError(_) => {
                "size provided is outside type bounds: out of range integral type conversion attempted".to_owned()
            },
        }
    }
}

/// The name of a response code, as its variant is written.
pub open spec fn response_name(code: ResponseType) -> Seq<char> {
    match code {
        ResponseType::Created => "Created"@,
        ResponseType::Deleted => "Deleted"@,
        ResponseType::Valid => "Valid"@,
        ResponseType::Changed => "Changed"@,
        ResponseType::Content => "Content"@,
        ResponseType::Continue => "Continue"@,
        ResponseType::BadRequest => "BadRequest"@,
        ResponseType::Unauthorized => "Unauthorized"@,
        ResponseType::BadOption => "BadOption"@,
        ResponseType::Forbidden => "Forbidden"@,
        ResponseType::NotFound => "NotFound"@,
        ResponseType::MethodNotAllowed => "MethodNotAllowed"@,
        ResponseType::NotAcceptable => "NotAcceptable"@,
        ResponseType::PreconditionFailed => "PreconditionFailed"@,
        ResponseType::RequestEntityTooLarge => "RequestEntityTooLarge"@,
        ResponseType::UnsupportedContentFormat => "UnsupportedContentFormat"@,
        ResponseType::RequestEntityIncomplete => "RequestEntityIncomplete"@,
        ResponseType::TooManyRequests => "TooManyRequests"@,
        ResponseType::InternalServerError => "InternalServerError"@,
        ResponseType::NotImplemented => "NotImplemented"@,
        ResponseType::BadGateway => "BadGateway"@,
        ResponseType::ServiceUnavailable => "ServiceUnavailable"@,
        ResponseType::GatewayTimeout => "GatewayTimeout"@,
        ResponseType::ProxyingNotSupported => "ProxyingNotSupported"@,
        ResponseType::UnKnown => "UnKnown"@,
    }
}

/// An optional response code as it is written when debugging: `None`, or
/// the name of the code in `Some(..)`.
pub open spec fn response_code_text(code: Option<ResponseType>) -> Seq<char> {
    match code {
        None => "None"@,
        Some(code) => "Some("@ + response_name(code) + ")"@,
    }
}

fn response_name_string(code: ResponseType) -> (s: String)
    ensures
        s@ == response_name(code),
{
    match code {
        ResponseType::Created => "Created".to_owned(),
        ResponseType::Deleted => "Deleted".to_owned(),
        ResponseType::Valid => "Valid".to_owned(),
        ResponseType::Changed => "Changed".to_owned(),
        ResponseType::Content => "Content".to_owned(),
        ResponseType::Continue => "Continue".to_owned(),
        ResponseType::BadRequest => "BadRequest".to_owned(),
        ResponseType::Unauthorized => "Unauthorized".to_owned(),
        ResponseType::BadOption => "BadOption".to_owned(),
        ResponseType::Forbidden => "Forbidden".to_owned(),
        ResponseType::NotFound => "NotFound".to_owned(),
        ResponseType::MethodNotAllowed => "MethodNotAllowed".to_owned(),
        ResponseType::NotAcceptable => "NotAcceptable".to_owned(),
        ResponseType::PreconditionFailed => "PreconditionFailed".to_owned(),
        ResponseType::RequestEntityTooLarge => "RequestEntityTooLarge".to_owned(),
        ResponseType::UnsupportedContentFormat => "UnsupportedContentFormat".to_owned(),
        ResponseType::RequestEntityIncomplete => "RequestEntityIncomplete".to_owned(),
        ResponseType::TooManyRequests => "TooManyRequests".to_owned(),
        ResponseType::InternalServerError => "InternalServerError".to_owned(),
        ResponseType::NotImplemented => "NotImplemented".to_owned(),
        ResponseType::BadGateway => "BadGateway".to_owned(),
        ResponseType::ServiceUnavailable => "ServiceUnavailable".to_owned(),
        ResponseType::GatewayTimeout => "GatewayTimeout".to_owned(),
        ResponseType::ProxyingNotSupported => "ProxyingNotSupported".to_owned(),
        ResponseType::UnKnown => "UnKnown".to_owned(),
    }
}

fn response_code_string(code: &Option<ResponseType>) -> (s: String)
    ensures
        s@ == response_code_text(*code),
{
    match code {
        None => "None".to_owned(),
        Some(code) => {
            let mut s = "Some(".to_owned();
            s.append(response_name_string(*code).as_str());
            s.append(")");
            s
        },
    }
}

/// A handling error as plain values.
pub struct HandlingFault {
    pub code: Option<ResponseType>,
    pub message: Seq<char>,
}

/// The fault that tells the caller to proceed to the application.
pub open spec fn not_handled_fault() -> HandlingFault {
    HandlingFault { code: None, message: "Not handled"@ }
}

/// The 5.00 fault with the given message.
pub open spec fn internal_fault(message: Seq<char>) -> HandlingFault {
    HandlingFault { code: Some(ResponseType::InternalServerError), message }
}

/// The 4.00 fault with the given message.
pub open spec fn bad_request_fault(message: Seq<char>) -> HandlingFault {
    HandlingFault { code: Some(ResponseType::BadRequest), message }
}

/// Participatory mechanism for the low-level library to communicate to callers
/// that unexpected errors occurred while handling standard parts of the
/// protocol that should ideally deliver a failure message to the peer. But
/// rather than apply that response message ourselves we yield this error and
/// ask the caller to perform the conversion.  For convenience, this can be
/// done with [`crate::CoapRequest::apply_from_error`].
#[derive(Debug, Clone)]
pub struct HandlingError {
    pub code: Option<ResponseType>,
    pub message: String,
}

impl View for HandlingError {
    type V = HandlingFault;

    open spec fn view(&self) -> HandlingFault {
        HandlingFault { code: self.code, message: self.message@ }
    }
}

impl HandlingError {
    /// The text that the error is displayed as.
    pub open spec fn text(self) -> Seq<char> {
        "Handling error "@ + response_code_text(self.code) + ": "@ + self.message@
    }

    /// Renders the error for display.
    pub fn to_string(&self) -> (s: String)
        ensures
            s@ == self.text(),
    {
        let mut s = "Handling error ".to_owned();
        s.append(response_code_string(&self.code).as_str());
        s.append(": ");
        s.append(self.message.as_str());
        s
    }

    /// The sentinel that tells the caller to proceed to the application.
    pub fn not_handled() -> (e: Self)
        ensures
            e@ == not_handled_fault(),
            e.code is None,
            e.message@ == "Not handled"@,
    {
        Self { code: None, message: "Not handled".to_owned() }
    }

    /// A 4.04 outcome.
    pub fn not_found() -> (e: Self)
        ensures
            e.code == Some(ResponseType::NotFound),
            e.message@ == "Not found"@,
    {
        Self::with_code(ResponseType::NotFound, "Not found")
    }

    /// A 4.00 outcome carrying the given message.
    pub fn bad_request(e: &str) -> (r: Self)
        ensures
            r@ == bad_request_fault(e@),
            r.code == Some(ResponseType::BadRequest),
            r.message@ == e@,
    {
        Self::with_code(ResponseType::BadRequest, e)
    }

    /// A 5.00 outcome carrying the given message.
    pub fn internal(e: &str) -> (r: Self)
        ensures
            r@ == internal_fault(e@),
            r.code == Some(ResponseType::InternalServerError),
            r.message@ == e@,
    {
        Self::with_code(ResponseType::InternalServerError, e)
    }

    /// A 4.05 outcome.
    pub fn method_not_supported() -> (e: Self)
        ensures
            e.code == Some(ResponseType::MethodNotAllowed),
            e.message@ == "Method not supported"@,
    {
        Self::with_code(ResponseType::MethodNotAllowed, "Method not supported")
    }

    /// An outcome with the given response code and message.
    pub fn with_code(code: ResponseType, e: &str) -> (r: Self)
        ensures
            r.code == Some(code),
            r.message@ == e@,
    {
        Self { code: Some(code), message: e.to_owned() }
    }
}

} // verus!
