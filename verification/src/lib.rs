//! A lightweight CoAP message manipulation crate: wire codec, block-wise
//! transfer coordination and observation book-keeping.

pub mod block_handler;
pub mod error;
pub mod header;
pub mod impl_coap_message;
pub mod observe;
pub mod option_map;
pub mod option_value;
pub mod packet;
pub mod request;
pub mod response;
pub mod text;
pub mod wire;

pub use block_handler::{BlockHandler, BlockHandlerConfig};
pub use header::{Header, HeaderRaw, MessageClass, MessageType, RequestType, ResponseType};
pub use observe::Subject;
pub use packet::{CoapOption, ContentFormat, ObserveOption, Packet};
pub use request::CoapRequest;
pub use response::CoapResponse;
