//! The WebSocket opening handshake: eligibility, accept token and the
//! switching-protocols response.
use vstd::prelude::*;
use vstd::utf8::encode_utf8;

use crate::http::Headers;

verus! {

/// The SHA-1 digest of a byte sequence.
pub uninterp spec fn sha1_of(b: Seq<u8>) -> Seq<u8>;

/// The standard (padded) base64 text of a byte sequence.
pub uninterp spec fn base64_of(b: Seq<u8>) -> Seq<char>;

/// Relies on sha1's `Digest::digest` for `Sha1`: the 20-byte SHA-1 digest.
#[verifier::external_body]
fn sha1_digest(data: &[u8]) -> (r: Vec<u8>)
    ensures
        r@ == sha1_of(data@),
        r@.len() == 20,
{
    <sha1::Sha1 as sha1::Digest>::digest(data).to_vec()
}

/// Relies on base64's `Engine::encode` with the `STANDARD` engine: padded
/// output of four characters for each started group of three bytes; it
/// panics only when that length overflows.
#[verifier::external_body]
fn base64_encode(data: &[u8]) -> (r: String)
    requires
        4 * ((data@.len() + 2) / 3) <= usize::MAX,
    ensures
        r@ == base64_of(data@),
        r@.len() == 4 * ((data@.len() + 2) / 3),
{
    base64::Engine::encode(&base64::engine::general_purpose::STANDARD, data)
}

/// The fixed salt appended to the client's key.
pub open spec fn ws_magic() -> Seq<char> {
    "258EAFA5-E914-47DA-95CA-C5AB0DC85B11"@
}

/// The accept token for a client key.
pub open spec fn accept_token(key: Seq<char>) -> Seq<char> {
    base64_of(sha1_of(encode_utf8(key + ws_magic())))
}

/// Computes the `Sec-WebSocket-Accept` token for a `Sec-WebSocket-Key`.
pub fn accept_key(key: &str) -> (r: String)
    ensures
        r@ == accept_token(key@),
        r@.len() == 28,
{
    let salted = String::from_str(key).concat("258EAFA5-E914-47DA-95CA-C5AB0DC85B11");
    let digest = sha1_digest(salted.as_str().as_bytes());
    base64_encode(digest.as_slice())
}

/// The switching-protocols response carrying `token`.
pub open spec fn handshake_text(token: Seq<char>) -> Seq<char> {
    "HTTP/1.0 101 Switching Protocols\nServer: webd 0.1\nConnection: upgrade\nUpgrade: websocket\nSec-WebSocket-Accept: "@
        + token + "\n\n"@
}

/// Builds the switching-protocols response for an accept token.
pub fn handshake_response(accept: &str) -> (r: String)
    ensures
        r@ == handshake_text(accept@),
{
    let s = String::from_str(
        "HTTP/1.0 101 Switching Protocols\nServer: webd 0.1\nConnection: upgrade\nUpgrade: websocket\nSec-WebSocket-Accept: ",
    );
    s.concat(accept).concat("\n\n")
}

/// Header `name` is present with exactly the value `value`.
pub open spec fn header_is(h: Map<Seq<char>, Seq<char>>, name: Seq<char>, value: Seq<char>) -> bool {
    h.contains_key(name) && h[name] == value
}

/// The headers ask for a WebSocket upgrade (exact, case-sensitive match).
pub open spec fn upgrade_requested(h: Map<Seq<char>, Seq<char>>) -> bool {
    header_is(h, "Connection"@, "Upgrade"@) && header_is(h, "Upgrade"@, "websocket"@)
}

fn header_equals(h: &Headers, name: &str, value: &str) -> (r: bool)
    ensures
        r == header_is(h@, name@, value@),
{
    match h.get(name) {
        Some(v) => {
            let want = String::from_str(value);
            *v == want
        },
        None => false,
    }
}

/// Whether the request headers ask for a WebSocket upgrade.
pub fn wants_upgrade(h: &Headers) -> (r: bool)
    ensures
        r == upgrade_requested(h@),
{
    header_equals(h, "Connection", "Upgrade") && header_equals(h, "Upgrade", "websocket")
}

} // verus!
