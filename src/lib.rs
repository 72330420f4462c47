//! A small server-side HTTP/1.0 request parser and WebSocket (RFC 6455)
//! protocol core: frame codec, handshake and per-connection session.
//!
//! The library does no I/O: the request parser takes the text of a request
//! head, and a session takes received bytes and queues bytes to send.
use vstd::prelude::*;

pub mod err;
pub mod frame;
pub mod handshake;
pub mod http;
pub mod session;
pub mod text;

pub use err::{input, Error};
pub use frame::{FrameHeader, OpCode};
pub use handshake::{accept_key, handshake_response, wants_upgrade};
pub use http::{ends_head, parse_header_line, Headers, Req, Status, Verb};
pub use session::{ws_upgrade, Payload, WebSocket, WsUpgrade};

verus! {

} // verus!
