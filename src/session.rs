//! The per-connection WebSocket session: an `Open`/`Closed` state machine
//! over a buffer of received bytes and a buffer of bytes to send.
use vstd::prelude::*;
use vstd::utf8::{decode_utf8, encode_utf8, valid_utf8};

use crate::err::{Error, Result};
use crate::frame::{
    header_incomplete, header_malformed, length_bytes, mask_bit, masked, parsed_header_len,
    parsed_payload_len, FrameHeader, OpCode,
};
use crate::handshake::{accept_key, accept_token, handshake_response, handshake_text, upgrade_requested, wants_upgrade};
use crate::http::Req;

verus! {

/// The decoded data of one complete message.
#[derive(Debug)]
pub enum Payload {
    Str(String),
    Bin(Vec<u8>),
}

/// What a session holds, as mathematical values.
pub struct SessionView {
    pub open: bool,
    /// Received bytes not yet consumed.
    pub input: Seq<u8>,
    /// Bytes waiting to be sent.
    pub output: Seq<u8>,
    /// A fragmented message in progress: whether it is text, and its data.
    pub partial: Option<(bool, Seq<u8>)>,
}

/// What one `recv` call yields.
pub enum Received {
    NoMessage,
    Text(Seq<char>),
    Binary(Seq<u8>),
    Invalid,
}

/// Total length of the frame at the start of `b`.
pub open spec fn frame_total(b: Seq<u8>) -> nat {
    parsed_header_len(b) + parsed_payload_len(b)
}

/// The unmasked payload of the complete frame at the start of `b`.
pub open spec fn frame_payload(b: Seq<u8>) -> Seq<u8> {
    let hl = parsed_header_len(b);
    let data = b.subrange(hl as int, frame_total(b) as int);
    if mask_bit(b) {
        masked(data, b.subrange(hl - 4, hl as int))
    } else {
        data
    }
}

/// An unmasked frame with fin set, carrying `payload`.
pub open spec fn frame_bytes(op: OpCode, payload: Seq<u8>) -> Seq<u8> {
    seq![0x80u8 | op.code()] + length_bytes(payload.len(), false) + payload
}

pub open spec fn closed_view(v: SessionView) -> SessionView {
    SessionView { open: false, ..v }
}

/// The end of a message: binary data as is, text data decoded.
pub open spec fn finish(v: SessionView, text: bool, data: Seq<u8>) -> (SessionView, Received) {
    if !text {
        (v, Received::Binary(data))
    } else if valid_utf8(data) {
        (v, Received::Text(decode_utf8(data)))
    } else {
        (closed_view(v), Received::Invalid)
    }
}

/// The effect of one complete frame, whose bytes are already consumed.
pub open spec fn handle_frame(v: SessionView, fin: bool, op: OpCode, p: Seq<u8>) -> (
    SessionView,
    Received,
) {
    match op {
        OpCode::Close => (closed_view(v), Received::NoMessage),
        OpCode::Ping => (
            SessionView { output: v.output + frame_bytes(OpCode::Pong, p), ..v },
            Received::NoMessage,
        ),
        OpCode::Pong => (v, Received::NoMessage),
        OpCode::Continuation => match v.partial {
            None => (closed_view(v), Received::Invalid),
            Some(f) => if fin {
                finish(SessionView { partial: None, ..v }, f.0, f.1 + p)
            } else {
                (SessionView { partial: Some((f.0, f.1 + p)), ..v }, Received::NoMessage)
            },
        },
        _ => if v.partial is Some {
            (closed_view(v), Received::Invalid)
        } else if fin {
            finish(v, op is Text, p)
        } else {
            (SessionView { partial: Some((op is Text, p)), ..v }, Received::NoMessage)
        },
    }
}

/// The effect of one `recv` call.
pub open spec fn recv_step(v: SessionView) -> (SessionView, Received) {
    let b = v.input;
    if !v.open {
        (v, Received::NoMessage)
    } else if header_malformed(b) {
        (closed_view(v), Received::Invalid)
    } else if header_incomplete(b) || b.len() < frame_total(b) {
        (v, Received::NoMessage)
    } else {
        handle_frame(
            SessionView { input: b.skip(frame_total(b) as int), ..v },
            b[0] & 0x80 == 0x80,
            OpCode::from_nibble(b[0] & 0xf)->0,
            frame_payload(b),
        )
    }
}

/// `r` is the exec form of the outcome `o`.
pub open spec fn yields(r: Result<Option<Payload>>, o: Received) -> bool {
    match o {
        Received::NoMessage => r matches Ok(None),
        Received::Text(s) => r matches Ok(Some(Payload::Str(x))) && x@ == s,
        Received::Binary(b) => r matches Ok(Some(Payload::Bin(x))) && x@ == b,
        Received::Invalid => r matches Err(e) && e is Input,
    }
}

/// Relies on `String::from_utf8`: succeeds exactly on valid UTF-8, with the
/// decoded characters.
#[verifier::external_body]
fn string_from_utf8(b: Vec<u8>) -> (r: Option<String>)
    ensures
        match r {
            Some(s) => valid_utf8(b@) && s@ == decode_utf8(b@),
            None => !valid_utf8(b@),
        },
{
    String::from_utf8(b).ok()
}

/// A WebSocket connection after a successful upgrade.
#[derive(Debug)]
pub struct WebSocket {
    req: Req,
    open: bool,
    input: Vec<u8>,
    output: Vec<u8>,
    partial: Option<(bool, Vec<u8>)>,
}

impl View for WebSocket {
    type V = SessionView;

    closed spec fn view(&self) -> SessionView {
        SessionView {
            open: self.open,
            input: self.input@,
            output: self.output@,
            partial: match self.partial {
                Some(f) => Some((f.0, f.1@)),
                None => None,
            },
        }
    }
}

impl WebSocket {
    pub closed spec fn spec_req(&self) -> Req {
        self.req
    }

    /// An open session for `req` with empty buffers.
    pub fn new(req: Req) -> (r: WebSocket)
        ensures
            r@ == (SessionView {
                open: true,
                input: Seq::empty(),
                output: Seq::empty(),
                partial: None,
            }),
            r.spec_req() == req,
    {
        WebSocket { req, open: true, input: Vec::new(), output: Vec::new(), partial: None }
    }

    /// The upgrade request this session came from.
    pub fn request(&self) -> (r: &Req)
        ensures
            *r == self.spec_req(),
    {
        &self.req
    }

    pub fn is_open(&self) -> (r: bool)
        ensures
            r == self@.open,
    {
        self.open
    }

    /// How many received bytes are not consumed yet.
    pub fn buffered(&self) -> (r: usize)
        ensures
            r == self@.input.len(),
    {
        self.input.len()
    }

    /// Appends bytes read from the connection.
    pub fn feed(&mut self, bytes: &[u8])
        ensures
            final(self)@ == (SessionView { input: old(self)@.input + bytes@, ..old(self)@ }),
            final(self).spec_req() == old(self).spec_req(),
    {
        self.input.extend_from_slice(bytes);
        assert(self.input@ =~= old(self).input@ + bytes@);
    }

    /// Hands out the bytes waiting to be sent and empties that buffer.
    pub fn take_output(&mut self) -> (r: Vec<u8>)
        ensures
            r@ == old(self)@.output,
            final(self)@ == (SessionView { output: Seq::empty(), ..old(self)@ }),
            final(self).spec_req() == old(self).spec_req(),
    {
        let out = self.output.split_off(0);
        assert(self.output@ =~= Seq::<u8>::empty());
        assert(out@ =~= old(self)@.output);
        out
    }

    /// Closes the session, as after a failure of the connection.
    pub fn close(&mut self)
        ensures
            final(self)@ == closed_view(old(self)@),
            final(self).spec_req() == old(self).spec_req(),
    {
        self.open = false;
    }

    /// Queues a final, unmasked Text frame carrying `msg`; returns the number
    /// of bytes queued. A closed session refuses with an I/O error and
    /// queues nothing; a message too long to frame is an input error.
    pub fn send_str(&mut self, msg: &str) -> (r: Result<usize>)
        ensures
            ({
                let data = encode_utf8(msg@);
                let fits = data.len() + 14 <= usize::MAX;
                &&& old(self)@.open && fits ==> r == Ok::<usize, Error>(
                    frame_bytes(OpCode::Text, data).len() as usize,
                ) && final(self)@ == (SessionView {
                    output: old(self)@.output + frame_bytes(OpCode::Text, data),
                    ..old(self)@
                })
                &&& old(self)@.open && !fits ==> (r matches Err(e) && e is Input) && final(self)@
                    == old(self)@
                &&& !old(self)@.open ==> (r matches Err(e) && e is Io) && final(self)@ == old(
                    self,
                )@
            }),
            final(self).spec_req() == old(self).spec_req(),
    {
        if !self.open {
            return Err(Error::Io(String::from_str("session closed")));
        }
        if msg.len() > usize::MAX - 14 {
            return Err(Error::Input(String::from_str("message too long")));
        }
        let payload = msg.as_bytes();
        let hdr = FrameHeader::final_text(payload.len(), None);
        let num = hdr.write(&mut self.output);
        self.output.extend_from_slice(payload);
        assert(hdr.spec_bytes() =~= seq![0x80u8 | OpCode::Text.code()] + length_bytes(
            payload@.len(),
            false,
        ));
        assert(self.output@ =~= old(self)@.output + frame_bytes(OpCode::Text, encode_utf8(msg@)));
        Ok(num + payload.len())
    }

    /// Ends a message: binary data as is, text data decoded from UTF-8.
    fn finish(&mut self, text: bool, data: Vec<u8>) -> (r: Result<Option<Payload>>)
        ensures
            final(self)@ == finish(old(self)@, text, data@).0,
            yields(r, finish(old(self)@, text, data@).1),
            final(self).spec_req() == old(self).spec_req(),
    {
        if !text {
            return Ok(Some(Payload::Bin(data)));
        }
        match string_from_utf8(data) {
            Some(s) => Ok(Some(Payload::Str(s))),
            None => {
                self.open = false;
                Err(Error::Input(String::from_str("text frame is not valid UTF-8")))
            },
        }
    }

    /// Acts on one complete frame whose bytes are already consumed.
    fn handle_frame(&mut self, fin: bool, op: OpCode, p: Vec<u8>) -> (r: Result<
        Option<Payload>,
    >)
        ensures
            final(self)@ == handle_frame(old(self)@, fin, op, p@).0,
            yields(r, handle_frame(old(self)@, fin, op, p@).1),
            final(self).spec_req() == old(self).spec_req(),
    {
        match op {
            OpCode::Close => {
                self.open = false;
                Ok(None)
            },
            OpCode::Ping => {
                let n = p.len();
                let header_len: usize = if n > 65535 {
                    10
                } else if n > 125 {
                    4
                } else {
                    2
                };
                let pong = FrameHeader {
                    fin: true,
                    opcode: OpCode::Pong,
                    header_len,
                    payload_len: n,
                    masking_key: None,
                };
                pong.write(&mut self.output);
                let ghost mid = self.output@;
                self.output.extend_from_slice(p.as_slice());
                assert(self.output@ =~= mid + p@);
                assert(pong.spec_bytes() =~= seq![0x80u8 | OpCode::Pong.code()] + length_bytes(
                    p@.len(),
                    false,
                ));
                assert(self.output@ =~= old(self)@.output + frame_bytes(OpCode::Pong, p@));
                Ok(None)
            },
            OpCode::Pong => Ok(None),
            OpCode::Continuation => {
                match self.partial.take() {
                    None => {
                        self.open = false;
                        Err(Error::Input(String::from_str("continuation without a message")))
                    },
                    Some(f) => {
                        let (text, mut data) = f;
                        let ghost before = data@;
                        data.extend_from_slice(p.as_slice());
                        assert(data@ =~= before + p@);
                        if fin {
                            self.finish(text, data)
                        } else {
                            self.partial = Some((text, data));
                            Ok(None)
                        }
                    },
                }
            },
            _ => {
                if self.partial.is_some() {
                    self.open = false;
                    return Err(Error::Input(String::from_str("message interrupted by a new one")));
                }
                let text = match op {
                    OpCode::Text => true,
                    _ => false,
                };
                if fin {
                    self.finish(text, p)
                } else {
                    self.partial = Some((text, p));
                    Ok(None)
                }
            },
        }
    }

    /// Takes the next frame from the received bytes, if it is complete.
    /// Data frames yield a message once its final fragment has come; Ping
    /// queues a Pong, Pong is dropped, Close closes the session. A closed
    /// session yields no message.
    pub fn recv(&mut self) -> (r: Result<Option<Payload>>)
        ensures
            final(self)@ == recv_step(old(self)@).0,
            yields(r, recv_step(old(self)@).1),
            final(self).spec_req() == old(self).spec_req(),
    {
        if !self.open {
            return Ok(None);
        }
        let ghost b = self.input@;
        let hdr = match FrameHeader::parse(self.input.as_slice()) {
            Err(e) => {
                self.open = false;
                return Err(e);
            },
            Ok(None) => {
                return Ok(None);
            },
            Ok(Some(h)) => h,
        };
        let total = hdr.frame_len();
        if self.input.len() < total {
            return Ok(None);
        }
        let rest = self.input.split_off(total);
        let raw = self.input.split_off(hdr.header_len);
        self.input = rest;
        assert(raw@ =~= b.subrange(hdr.header_len as int, total as int));
        let payload = hdr.unmask(raw.as_slice());
        assert(payload@ == frame_payload(b));
        self.handle_frame(hdr.fin, hdr.opcode, payload)
    }
}

/// The outcome of an upgrade attempt.
#[derive(Debug)]
pub enum WsUpgrade {
    /// The response is queued on the new session's output.
    Success(WebSocket),
    /// Not a WebSocket request: the request comes back for plain HTTP.
    Failure(Req),
    Error(Error),
}

/// The session a successful upgrade with accept token `token` starts.
pub open spec fn upgraded_view(token: Seq<char>) -> SessionView {
    SessionView {
        open: true,
        input: Seq::empty(),
        output: encode_utf8(handshake_text(token)),
        partial: None,
    }
}

/// Attempts to upgrade `req` to a WebSocket session.
pub fn ws_upgrade(req: Req) -> (r: WsUpgrade)
    ensures
        ({
            let h = req.headers@;
            let key = "Sec-WebSocket-Key"@;
            &&& !upgrade_requested(h) ==> (r matches WsUpgrade::Failure(q) && q == req)
            &&& upgrade_requested(h) && !h.contains_key(key) ==> (r matches WsUpgrade::Error(e)
                && e is Input)
            &&& upgrade_requested(h) && h.contains_key(key) ==> (r matches WsUpgrade::Success(ws)
                && ws@ == upgraded_view(accept_token(h[key])) && ws.spec_req() == req)
        }),
{
    if !wants_upgrade(&req.headers) {
        return WsUpgrade::Failure(req);
    }
    let key = match req.headers.get("Sec-WebSocket-Key") {
        Some(k) => k.clone(),
        None => {
            return WsUpgrade::Error(Error::Input(String::from_str("missing Sec-WebSocket-Key")));
        },
    };
    let accept = accept_key(key.as_str());
    let response = handshake_response(accept.as_str());
    let mut ws = WebSocket::new(req);
    ws.output.extend_from_slice(response.as_str().as_bytes());
    assert(ws.output@ =~= encode_utf8(handshake_text(accept_token(key@))));
    WsUpgrade::Success(ws)
}

/// A closed session stays as it is under `recv`, which yields no message,
/// whatever bytes it holds.
pub proof fn lemma_closed_recv_is_noop(v: SessionView)
    requires
        !v.open,
    ensures
        recv_step(v) == (v, Received::NoMessage),
{
}

/// `recv` never reopens a session.
pub proof fn lemma_recv_never_reopens(v: SessionView)
    ensures
        recv_step(v).0.open ==> v.open,
{
}

/// A complete Close frame at the front of the received bytes, whatever its
/// fin bit, closes an open session, yields no message, consumes exactly that
/// frame and queues nothing.
pub proof fn lemma_close_frame_closes(v: SessionView)
    requires
        v.open,
        !header_incomplete(v.input),
        !header_malformed(v.input),
        v.input.len() >= frame_total(v.input),
        OpCode::from_nibble(v.input[0] & 0xf) == Some(OpCode::Close),
    ensures
        !recv_step(v).0.open,
        recv_step(v).1 == Received::NoMessage,
        recv_step(v).0.input == v.input.skip(frame_total(v.input) as int),
        recv_step(v).0.output == v.output,
{
}

/// A complete, unfragmented Text frame whose payload is not valid UTF-8
/// yields an input error and closes the session.
pub proof fn lemma_invalid_text_rejected(v: SessionView)
    requires
        v.open,
        v.partial is None,
        !header_incomplete(v.input),
        !header_malformed(v.input),
        v.input.len() >= frame_total(v.input),
        v.input[0] & 0x80 == 0x80,
        OpCode::from_nibble(v.input[0] & 0xf) == Some(OpCode::Text),
        !valid_utf8(frame_payload(v.input)),
    ensures
        recv_step(v).1 == Received::Invalid,
        !recv_step(v).0.open,
{
}

} // verus!
