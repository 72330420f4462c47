//! WebSocket frame headers: parsing, serialisation and payload masking.
use vstd::prelude::*;

use crate::err::{Error, Result};

verus! {

/// The closed set of frame opcodes.
#[derive(Clone, Copy, Debug, PartialEq, Eq, Structural)]
pub enum OpCode {
    Continuation,
    Text,
    Binary,
    Close,
    Ping,
    Pong,
}

impl OpCode {
    /// The opcode named by a 4-bit nibble, if any.
    pub open spec fn from_nibble(n: u8) -> Option<OpCode> {
        if n == 0x0 {
            Some(OpCode::Continuation)
        } else if n == 0x1 {
            Some(OpCode::Text)
        } else if n == 0x2 {
            Some(OpCode::Binary)
        } else if n == 0x8 {
            Some(OpCode::Close)
        } else if n == 0x9 {
            Some(OpCode::Ping)
        } else if n == 0xA {
            Some(OpCode::Pong)
        } else {
            None
        }
    }

    /// The wire value of an opcode.
    pub open spec fn code(self) -> u8 {
        match self {
            OpCode::Continuation => 0x0,
            OpCode::Text => 0x1,
            OpCode::Binary => 0x2,
            OpCode::Close => 0x8,
            OpCode::Ping => 0x9,
            OpCode::Pong => 0xA,
        }
    }

    /// Decodes the low nibble of `val`.
    pub fn parse(val: u8) -> (r: Option<OpCode>)
        ensures
            r == OpCode::from_nibble(val & 0xf),
    {
        let opc = val & 0xf;
        match opc {
            0x0 => Some(OpCode::Continuation),
            0x1 => Some(OpCode::Text),
            0x2 => Some(OpCode::Binary),
            0x8 => Some(OpCode::Close),
            0x9 => Some(OpCode::Ping),
            0xA => Some(OpCode::Pong),
            _ => None,
        }
    }

    pub fn as_byte(&self) -> (r: u8)
        ensures
            r == self.code(),
    {
        match self {
            OpCode::Continuation => 0x0,
            OpCode::Text => 0x1,
            OpCode::Binary => 0x2,
            OpCode::Close => 0x8,
            OpCode::Ping => 0x9,
            OpCode::Pong => 0xA,
        }
    }
}

/// The header of one frame, as read from or written to the wire.
#[derive(Clone, Copy, Debug)]
pub struct FrameHeader {
    pub fin: bool,
    pub opcode: OpCode,
    /// Bytes taken by the header itself; the payload starts here.
    pub header_len: usize,
    pub payload_len: usize,
    pub masking_key: Option<[u8; 4]>,
}

/// The 7-bit base length field of byte 1.
pub open spec fn len_field(b: Seq<u8>) -> u8 {
    b[1] & 0x7f
}

/// Whether byte 1 announces a masking key.
pub open spec fn mask_bit(b: Seq<u8>) -> bool {
    b[1] & 0x80 == 0x80
}

/// Extra length bytes that a base length field calls for.
pub open spec fn ext_width(l: u8) -> nat {
    if l == 126 {
        2
    } else if l == 127 {
        8
    } else {
        0
    }
}

/// Big-endian value of eight bytes.
pub open spec fn be64(b: Seq<u8>) -> u64 {
    (b[0] as u64) << 56u64 | (b[1] as u64) << 48u64 | (b[2] as u64) << 40u64 | (b[3] as u64)
        << 32u64 | (b[4] as u64) << 24u64 | (b[5] as u64) << 16u64 | (b[6] as u64) << 8u64
        | (b[7] as u64)
}

/// Header length announced by the first two bytes (and the length field).
pub open spec fn parsed_header_len(b: Seq<u8>) -> nat {
    2 + ext_width(len_field(b)) + if mask_bit(b) {
        4nat
    } else {
        0nat
    }
}

/// Payload length announced by the header; needs the extended length bytes.
pub open spec fn parsed_payload_len(b: Seq<u8>) -> nat {
    let l = len_field(b);
    if l == 126 {
        b[2] as nat * 256 + b[3] as nat
    } else if l == 127 {
        be64(b.subrange(2, 10)) as nat
    } else {
        l as nat
    }
}

/// Whether the opcode nibble of byte 0 is known.
pub open spec fn known_opcode(b: Seq<u8>) -> bool {
    OpCode::from_nibble(b[0] & 0xf) is Some
}

/// Whether the whole frame would be too long to be addressed.
pub open spec fn oversized(b: Seq<u8>) -> bool {
    parsed_header_len(b) + parsed_payload_len(b) > usize::MAX
}

/// The buffer is too short to hold the header it starts.
pub open spec fn header_incomplete(b: Seq<u8>) -> bool {
    b.len() < 2 || (known_opcode(b) && (b.len() < 2 + ext_width(len_field(b)) || (!oversized(b)
        && b.len() < parsed_header_len(b))))
}

/// The buffer starts a header that can never be accepted.
pub open spec fn header_malformed(b: Seq<u8>) -> bool {
    b.len() >= 2 && (!known_opcode(b) || (b.len() >= 2 + ext_width(len_field(b)) && oversized(
        b,
    )))
}

/// Length of the extended length field chosen when writing a payload length.
pub open spec fn ext_len_for(payload_len: nat) -> nat {
    if payload_len > 65535 {
        8
    } else if payload_len > 125 {
        2
    } else {
        0
    }
}

/// Header length of a frame written with the minimal length encoding.
pub open spec fn header_size(payload_len: nat, masked: bool) -> nat {
    2 + ext_len_for(payload_len) + if masked {
        4nat
    } else {
        0nat
    }
}

/// Eight big-endian bytes of `v`.
pub open spec fn be64_bytes(v: u64) -> Seq<u8> {
    seq![
        (v >> 56u64) as u8,
        (v >> 48u64) as u8,
        (v >> 40u64) as u8,
        (v >> 32u64) as u8,
        (v >> 24u64) as u8,
        (v >> 16u64) as u8,
        (v >> 8u64) as u8,
        v as u8,
    ]
}

/// Byte 1 and the extended length bytes for a payload length.
pub open spec fn length_bytes(payload_len: nat, masked: bool) -> Seq<u8> {
    let m: u8 = if masked {
        0x80
    } else {
        0
    };
    if payload_len > 65535 {
        seq![m | 127u8] + be64_bytes(payload_len as u64)
    } else if payload_len > 125 {
        seq![m | 126u8, (payload_len / 256) as u8, (payload_len % 256) as u8]
    } else {
        seq![m | (payload_len as u8)]
    }
}

/// Result of applying the masking transform of `key` to `data`.
pub open spec fn masked(data: Seq<u8>, key: Seq<u8>) -> Seq<u8> {
    Seq::new(data.len(), |i: int| data[i] ^ key[i % 4])
}

impl FrameHeader {
    /// Total frame length: header and payload.
    pub open spec fn spec_frame_len(&self) -> nat {
        (self.header_len + self.payload_len) as nat
    }

    /// The header and payload lengths can be added without overflow.
    pub open spec fn wf(&self) -> bool {
        self.header_len + self.payload_len <= usize::MAX
    }

    /// The header length is the one its own serialisation takes.
    pub open spec fn canonical(&self) -> bool {
        self.header_len == header_size(self.payload_len as nat, self.masking_key is Some)
    }

    /// This header is what the start of `b` says.
    pub open spec fn describes(&self, b: Seq<u8>) -> bool {
        &&& !header_incomplete(b)
        &&& !header_malformed(b)
        &&& self.fin == (b[0] & 0x80 == 0x80)
        &&& OpCode::from_nibble(b[0] & 0xf) == Some(self.opcode)
        &&& self.header_len == parsed_header_len(b)
        &&& self.payload_len == parsed_payload_len(b)
        &&& (self.masking_key is Some) == mask_bit(b)
        &&& self.masking_key matches Some(k) ==> k@ == b.subrange(
            self.header_len - 4,
            self.header_len as int,
        )
    }

    /// The bytes that `write` emits for this header.
    pub open spec fn spec_bytes(&self) -> Seq<u8> {
        let b0: u8 = if self.fin {
            0x80u8 | self.opcode.code()
        } else {
            self.opcode.code()
        };
        let key = match self.masking_key {
            Some(k) => k@,
            None => Seq::empty(),
        };
        seq![b0] + length_bytes(self.payload_len as nat, self.masking_key is Some) + key
    }

    /// `data` with this header's masking transform removed.
    pub open spec fn spec_unmask(&self, data: Seq<u8>) -> Seq<u8> {
        match self.masking_key {
            Some(k) => masked(data, k@),
            None => data,
        }
    }

    /// Reads the header at the start of `buf`: `Ok(None)` when more bytes
    /// are needed, an input error when the header can never be valid.
    pub fn parse(buf: &[u8]) -> (r: Result<Option<FrameHeader>>)
        ensures
            match r {
                Ok(None) => header_incomplete(buf@),
                Ok(Some(h)) => h.describes(buf@) && h.wf(),
                Err(e) => header_malformed(buf@) && e.is_input(),
            },
    {
        let n = buf.len();
        if n < 2 {
            return Ok(None);
        }
        let b0 = buf[0];
        let b1 = buf[1];
        let opcode = match OpCode::parse(b0) {
            Some(o) => o,
            None => {
                return Err(Error::Input(String::from_str("unknown opcode")));
            },
        };
        let fin = (b0 & 0x80) == 0x80;
        let mask = (b1 & 0x80) == 0x80;
        let l = b1 & 0x7f;
        let mut used: usize = 2;
        let payload: u64;
        if l == 126 {
            if n < 4 {
                return Ok(None);
            }
            payload = (buf[2] as u64) * 256 + buf[3] as u64;
            used = 4;
        } else if l == 127 {
            if n < 10 {
                return Ok(None);
            }
            payload = (buf[2] as u64) << 56u64 | (buf[3] as u64) << 48u64 | (buf[4] as u64) << 40u64
                | (buf[5] as u64) << 32u64 | (buf[6] as u64) << 24u64 | (buf[7] as u64) << 16u64
                | (buf[8] as u64) << 8u64 | (buf[9] as u64);
            assert(payload == be64(buf@.subrange(2, 10)));
            used = 10;
        } else {
            payload = l as u64;
        }
        if mask {
            used = used + 4;
        }
        if payload > (usize::MAX - used) as u64 {
            return Err(Error::Input(String::from_str("frame too long")));
        }
        if n < used {
            return Ok(None);
        }
        let masking_key = if mask {
            let key = [buf[used - 4], buf[used - 3], buf[used - 2], buf[used - 1]];
            assert(key@ =~= buf@.subrange(used - 4, used as int));
            Some(key)
        } else {
            None
        };
        Ok(Some(FrameHeader { fin, opcode, header_len: used, payload_len: payload as usize, masking_key }))
    }

    /// Returns the payload bytes `buf` with the masking transform of this
    /// header removed; without a key they come back unchanged.
    pub fn unmask(&self, buf: &[u8]) -> (r: Vec<u8>)
        ensures
            r@ == self.spec_unmask(buf@),
    {
        let mut vs: Vec<u8> = Vec::with_capacity(buf.len());
        match self.masking_key {
            Some(key) => {
                let mut i: usize = 0;
                while i < buf.len()
                    invariant
                        i <= buf.len(),
                        vs@ =~= masked(buf@.take(i as int), key@),
                    decreases buf.len() - i,
                {
                    vs.push(buf[i] ^ key[i % 4]);
                    i = i + 1;
                    assert(vs@ =~= masked(buf@.take(i as int), key@));
                }
                assert(buf@.take(buf.len() as int) =~= buf@);
            },
            None => {
                let mut i: usize = 0;
                while i < buf.len()
                    invariant
                        i <= buf.len(),
                        vs@ =~= buf@.take(i as int),
                    decreases buf.len() - i,
                {
                    vs.push(buf[i]);
                    i = i + 1;
                    assert(vs@ =~= buf@.take(i as int));
                }
                assert(buf@.take(buf.len() as int) =~= buf@);
            },
        }
        vs
    }

    /// Appends the header bytes to `out` and returns how many were written.
    pub fn write(&self, out: &mut Vec<u8>) -> (r: usize)
        ensures
            final(out)@ == old(out)@ + self.spec_bytes(),
            r == self.spec_bytes().len(),
    {
        let ghost start = out@;
        let code = self.opcode.as_byte();
        let b0: u8 = if self.fin {
            0x80u8 | code
        } else {
            code
        };
        out.push(b0);
        let m: u8 = if self.masking_key.is_some() {
            0x80
        } else {
            0
        };
        let plen = self.payload_len;
        let mut count: usize = 1;
        if plen > 65535 {
            let v = plen as u64;
            out.push(m | 127u8);
            out.push((v >> 56u64) as u8);
            out.push((v >> 48u64) as u8);
            out.push((v >> 40u64) as u8);
            out.push((v >> 32u64) as u8);
            out.push((v >> 24u64) as u8);
            out.push((v >> 16u64) as u8);
            out.push((v >> 8u64) as u8);
            out.push(v as u8);
            count = count + 9;
        } else if plen > 125 {
            out.push(m | 126u8);
            out.push((plen / 256) as u8);
            out.push((plen % 256) as u8);
            count = count + 3;
        } else {
            out.push(m | (plen as u8));
            count = count + 1;
        }
        match self.masking_key {
            None => {},
            Some(k) => {
                out.push(k[0]);
                out.push(k[1]);
                out.push(k[2]);
                out.push(k[3]);
                count = count + 4;
                assert(k@ =~= seq![k[0], k[1], k[2], k[3]]);
            },
        }
        assert(out@ =~= start + self.spec_bytes());
        count
    }

    /// A final, Text-opcode header for a payload of `payload_len` bytes.
    pub fn final_text(payload_len: usize, masking_key: Option<[u8; 4]>) -> (r: FrameHeader)
        requires
            payload_len + header_size(payload_len as nat, masking_key is Some) <= usize::MAX,
        ensures
            r.fin,
            r.opcode == OpCode::Text,
            r.payload_len == payload_len,
            r.masking_key == masking_key,
            r.canonical(),
            r.wf(),
    {
        let header_fixed: usize = 2;
        let payload_extra: usize = if payload_len > 65535 {
            8
        } else if payload_len > 125 {
            2
        } else {
            0
        };
        let mask_len: usize = match masking_key {
            None => 0,
            Some(arr) => 4,
        };
        let header_len = header_fixed + payload_extra + mask_len;
        FrameHeader { fin: true, opcode: OpCode::Text, header_len, payload_len, masking_key }
    }

    pub fn frame_len(&self) -> (r: usize)
        requires
            self.wf(),
        ensures
            r == self.spec_frame_len(),
    {
        self.header_len + self.payload_len
    }
}

proof fn lemma_first_byte(fin: bool, op: OpCode)
    ensures
        ({
            let b0: u8 = if fin {
                0x80u8 | op.code()
            } else {
                op.code()
            };
            &&& OpCode::from_nibble(b0 & 0xf) == Some(op)
            &&& (b0 & 0x80 == 0x80) == fin
        }),
{
    let c = op.code();
    assert(c < 16);
    assert((0x80u8 | c) & 0xf == c && (0x80u8 | c) & 0x80 == 0x80) by (bit_vector)
        requires
            c < 16,
    ;
    assert(c & 0xf == c && c & 0x80 != 0x80) by (bit_vector)
        requires
            c < 16,
    ;
}

proof fn lemma_second_byte(m: u8, x: u8)
    requires
        m == 0 || m == 0x80,
        x < 128,
    ensures
        (m | x) & 0x7f == x,
        ((m | x) & 0x80 == 0x80) == (m == 0x80),
{
    assert((m | x) & 0x7f == x && (((m | x) & 0x80 == 0x80) == (m == 0x80))) by (bit_vector)
        requires
            m == 0 || m == 0x80,
            x < 128,
    ;
}

proof fn lemma_be64_inverse(v: u64)
    ensures
        be64(be64_bytes(v)) == v,
{
    assert(((v >> 56u64) as u8 as u64) << 56u64 | ((v >> 48u64) as u8 as u64) << 48u64 | ((v
        >> 40u64) as u8 as u64) << 40u64 | ((v >> 32u64) as u8 as u64) << 32u64 | ((v >> 24u64) as u8
        as u64) << 24u64 | ((v >> 16u64) as u8 as u64) << 16u64 | ((v >> 8u64) as u8 as u64)
        << 8u64 | (v as u8 as u64) == v) by (bit_vector);
}

/// Writing a header and reading the bytes back gives the same header: the
/// written bytes, followed by anything, are described by `h` and by no
/// other header.
pub proof fn lemma_header_round_trip(h: FrameHeader, rest: Seq<u8>)
    requires
        h.canonical(),
        h.wf(),
    ensures
        h.describes(h.spec_bytes() + rest),
        forall|g: FrameHeader| #[trigger] g.describes(h.spec_bytes() + rest) ==> g == h,
{
    let b = h.spec_bytes() + rest;
    let p = h.payload_len as nat;
    let masked = h.masking_key is Some;
    let m: u8 = if masked {
        0x80
    } else {
        0
    };
    let key = match h.masking_key {
        Some(k) => k@,
        None => Seq::empty(),
    };
    lemma_first_byte(h.fin, h.opcode);
    let lb = length_bytes(p, masked);
    assert(b[0] == h.spec_bytes()[0]);
    if p > 65535 {
        lemma_second_byte(m, 127);
        lemma_be64_inverse(p as u64);
        assert(b.subrange(2, 10) =~= be64_bytes(p as u64));
        assert(b[1] == m | 127u8);
    } else if p > 125 {
        lemma_second_byte(m, 126);
        assert(b[1] == m | 126u8);
        assert(b[2] == (p / 256) as u8);
        assert(b[3] == (p % 256) as u8);
    } else {
        lemma_second_byte(m, p as u8);
        assert(b[1] == m | (p as u8));
    }
    assert(parsed_header_len(b) == h.header_len);
    assert(parsed_payload_len(b) == p);
    if let Some(k) = h.masking_key {
        assert(b.subrange(h.header_len - 4, h.header_len as int) =~= k@);
    }
    assert forall|g: FrameHeader| #[trigger] g.describes(b) implies g == h by {
        if let Some(k) = g.masking_key {
            let hk = h.masking_key->0;
            assert(k@ =~= hk@);
            assert(k == hk);
        }
    }
}

/// Applying the masking transform twice with the same key gives the data
/// back, for every byte sequence and every 4-byte key.
pub proof fn lemma_mask_involution(data: Seq<u8>, key: Seq<u8>)
    requires
        key.len() == 4,
    ensures
        masked(masked(data, key), key) == data,
{
    assert forall|i: int| 0 <= i < data.len() implies #[trigger] masked(masked(data, key), key)[i]
        == data[i] by {
        let d = data[i];
        let k = key[i % 4];
        assert((d ^ k) ^ k == d) by (bit_vector);
    }
    assert(masked(masked(data, key), key) =~= data);
}

} // verus!
