//! The response to a request.

use vstd::prelude::*;

use crate::header::{MessageClass, MessageType, ResponseType as Status};
use crate::packet::Packet;

verus! {

/// The CoAP response.
#[derive(Debug, PartialEq)]
pub struct CoapResponse {
    pub message: Packet,
}

impl Clone for CoapResponse {
    fn clone(&self) -> (copy: CoapResponse)
        ensures
            copy.message@ == self.message@,
    {
        CoapResponse { message: self.message.clone() }
    }
}

/// The type of the message that answers a message of type `t`, for the
/// types that are answered.
pub open spec fn response_type_for(t: MessageType) -> Option<MessageType> {
    match t {
        MessageType::Confirmable => Some(MessageType::Acknowledgement),
        MessageType::NonConfirmable => Some(MessageType::NonConfirmable),
        _ => None,
    }
}

impl CoapResponse {
    /// Creates a new response to a Confirmable or NonConfirmable request: an
    /// empty 2.05 Content that echoes its message id and token.
    pub fn new(request: &Packet) -> (r: Option<CoapResponse>)
        requires
            request.token@.len() < 16,
        ensures
            r is Some <==> response_type_for(request.header.message_type()) is Some,
            r matches Some(response) ==> {
                &&& response.message.header.version() == 1
                &&& Some(response.message.header.message_type()) == response_type_for(
                    request.header.message_type(),
                )
                &&& response.message.header.token_length() == request.token@.len()
                &&& response.message.header.code == MessageClass::Response(Status::Content)
                &&& response.message.header.message_id == request.header.message_id
                &&& response.message.token@ == request.token@
                &&& response.message.options@ == Seq::<(u16, Seq<Seq<u8>>)>::empty()
                &&& response.message.payload@ == Seq::<u8>::empty()
            },
    {
        let mut packet = Packet::new();

        packet.header.set_version(1);
        let response_type = match request.header.get_type() {
            MessageType::Confirmable => MessageType::Acknowledgement,
            MessageType::NonConfirmable => MessageType::NonConfirmable,
            _ => {
                return None;
            },
        };
        packet.header.set_type(response_type);
        packet.header.code = MessageClass::Response(Status::Content);
        packet.header.message_id = request.header.message_id;
        packet.set_token(vstd::slice::slice_to_vec(request.get_token()));
        assert(1u8 & 3 == 1) by (bit_vector);
        Some(CoapResponse { message: packet })
    }

    /// Sets the status.
    pub fn set_status(&mut self, status: Status)
        ensures
            final(self).message.header.code == MessageClass::Response(status),
            final(self).message.header.ver_type_tkl == old(self).message.header.ver_type_tkl,
            final(self).message.header.message_id == old(self).message.header.message_id,
            final(self).message.token@ == old(self).message.token@,
            final(self).message.options@ == old(self).message.options@,
            final(self).message.payload@ == old(self).message.payload@,
    {
        self.message.header.code = MessageClass::Response(status);
    }

    /// The status that a code stands for: the response code itself, and
    /// unknown for any other code.
    pub open spec fn status_of(code: MessageClass) -> Status {
        match code {
            MessageClass::Response(status) => status,
            _ => Status::UnKnown,
        }
    }

    /// Returns the status.
    pub fn get_status(&self) -> (status: &Status)
        ensures
            *status == Self::status_of(self.message.header.code),
    {
        match self.message.header.code {
            MessageClass::Response(ref code) => code,
            _ => &Status::UnKnown,
        }
    }
}

} // verus!
