//! The frame header bitfield, close status codes, and the typed message.
use vstd::prelude::*;

verus! {

// The header is a 16-bit bitfield laid out exactly as the first two wire
// octets: FIN (1 bit), RSV1-3 (3 bits), opcode (4 bits), mask flag (1 bit),
// 7-bit length code.
pub const WS_FIN: u16 = 0x8000;
pub const WS_RSV: u16 = 0x7000;
pub const WS_OPCODE: u16 = 0x0F00;
pub const WS_MASK: u16 = 0x0080;
pub const WS_LEN: u16 = 0x007F;

// Opcodes, compared for equality after masking with WS_OPCODE.
pub const WS_OPCONT: u16 = 0x0000;
pub const WS_OPTEXT: u16 = 0x0100;
pub const WS_OPBIN: u16 = 0x0200;
pub const WS_OPTERM: u16 = 0x0800;
pub const WS_OPPING: u16 = 0x0900;
pub const WS_OPPONG: u16 = 0x0A00;

// Reserved bits for extensions.
pub const WS_RSV1: u16 = 0x4000;
pub const WS_RSV2: u16 = 0x2000;
pub const WS_RSV3: u16 = 0x1000;

// Helper masks: a set WS_OPCTRL bit marks a control opcode; a length code
// equal to WS_LEN16 announces a 16-bit length, WS_LEN64 a 64-bit one.
pub const WS_OPCTRL: u16 = 0x0800;
pub const WS_LEN16: u16 = 0x007E;
pub const WS_LEN64: u16 = 0x007F;

/// The final flag of a header value.
pub open spec fn spec_fin(bits: u16) -> bool {
    bits & WS_FIN == WS_FIN
}

/// The three reserved bits of a header value, still in place.
pub open spec fn spec_rsv(bits: u16) -> u16 {
    bits & WS_RSV
}

/// The 4-bit opcode of a header value, still in place.
pub open spec fn spec_opcode(bits: u16) -> u16 {
    bits & WS_OPCODE
}

/// The mask flag of a header value.
pub open spec fn spec_masked(bits: u16) -> bool {
    bits & WS_MASK == WS_MASK
}

/// The 7-bit length code of a header value.
pub open spec fn spec_lencode(bits: u16) -> u16 {
    bits & WS_LEN
}

/// The first two octets of a frame, as one 16-bit value.
#[derive(Clone, Copy, Debug, PartialEq, Eq, Structural)]
pub struct WSHeader {
    pub bits: u16,
}

impl WSHeader {
    /// A header with no bit set.
    pub fn empty() -> (r: WSHeader)
        ensures
            r.bits == 0,
    {
        WSHeader { bits: 0 }
    }

    /// The raw bits.
    pub fn bits(&self) -> (r: u16)
        ensures
            r == self.bits,
    {
        self.bits
    }

    /// Whether every bit of `flags` is set.
    pub fn contains(&self, flags: u16) -> (r: bool)
        ensures
            r == (self.bits & flags == flags),
    {
        self.bits & flags == flags
    }

    /// Sets every bit of `flags`.
    pub fn insert(&mut self, flags: u16)
        ensures
            final(self).bits == old(self).bits | flags,
    {
        self.bits = self.bits | flags;
    }

    /// Clears every bit of `flags`.
    pub fn remove(&mut self, flags: u16)
        ensures
            final(self).bits == old(self).bits & !flags,
    {
        self.bits = self.bits & !flags;
    }
}

/// A close status code: the named RFC-defined codes, and three catch-all
/// variants partitioning the remaining 16-bit space. Codes 0-999 are
/// invalid and have no representation that converts back to a number.
#[derive(Clone, Copy, Debug, PartialEq, Eq, Structural)]
pub enum WSStatusCode {
    NoError,
    GoneAway,
    ProtocolError,
    UnsupportedData,
    NoCode,
    Aborted,
    InvalidData,
    ClientError,
    TooLargeData,
    ExtensionMissing,
    ServerError,
    TlsError,
    ProtocolCode(u16),
    ApplicationCode(u16),
    OtherCode(u16),
}

/// The 16-bit number a status code stands for, `None` when the payload of a
/// catch-all variant lies outside that variant's range.
pub open spec fn spec_status_to(s: WSStatusCode) -> Option<u16> {
    match s {
        WSStatusCode::NoError => Some(1000u16),
        WSStatusCode::GoneAway => Some(1001u16),
        WSStatusCode::ProtocolError => Some(1002u16),
        WSStatusCode::UnsupportedData => Some(1003u16),
        WSStatusCode::NoCode => Some(1005u16),
        WSStatusCode::Aborted => Some(1006u16),
        WSStatusCode::InvalidData => Some(1007u16),
        WSStatusCode::ClientError => Some(1008u16),
        WSStatusCode::TooLargeData => Some(1009u16),
        WSStatusCode::ExtensionMissing => Some(1010u16),
        WSStatusCode::ServerError => Some(1011u16),
        WSStatusCode::TlsError => Some(1015u16),
        WSStatusCode::ProtocolCode(code) => if 1000 <= code && code <= 2999 {
            Some(code)
        } else {
            None
        },
        WSStatusCode::ApplicationCode(code) => if 3000 <= code && code <= 3999 {
            Some(code)
        } else {
            None
        },
        WSStatusCode::OtherCode(code) => if 4000 <= code && code <= 4999 {
            Some(code)
        } else {
            None
        },
    }
}

/// The status code a 16-bit number resolves to: a named variant for the
/// RFC-defined codes, a catch-all for the rest of each reserved range, and
/// `None` below 1000 or above 4999.
pub open spec fn spec_status_from(n: u16) -> Option<WSStatusCode> {
    if n == 1000 {
        Some(WSStatusCode::NoError)
    } else if n == 1001 {
        Some(WSStatusCode::GoneAway)
    } else if n == 1002 {
        Some(WSStatusCode::ProtocolError)
    } else if n == 1003 {
        Some(WSStatusCode::UnsupportedData)
    } else if n == 1005 {
        Some(WSStatusCode::NoCode)
    } else if n == 1006 {
        Some(WSStatusCode::Aborted)
    } else if n == 1007 {
        Some(WSStatusCode::InvalidData)
    } else if n == 1008 {
        Some(WSStatusCode::ClientError)
    } else if n == 1009 {
        Some(WSStatusCode::TooLargeData)
    } else if n == 1010 {
        Some(WSStatusCode::ExtensionMissing)
    } else if n == 1011 {
        Some(WSStatusCode::ServerError)
    } else if n == 1015 {
        Some(WSStatusCode::TlsError)
    } else if 1000 <= n && n <= 2999 {
        Some(WSStatusCode::ProtocolCode(n))
    } else if 3000 <= n && n <= 3999 {
        Some(WSStatusCode::ApplicationCode(n))
    } else if 4000 <= n && n <= 4999 {
        Some(WSStatusCode::OtherCode(n))
    } else {
        None
    }
}

/// A status code that survives the trip through its 16-bit number: the one
/// `spec_status_from` picks for that number.
pub open spec fn status_canonical(s: WSStatusCode) -> bool {
    match spec_status_to(s) {
        Some(n) => spec_status_from(n) == Some(s),
        None => false,
    }
}

impl WSStatusCode {
    /// The 16-bit number this status code stands for.
    pub fn to_u16(&self) -> (r: Option<u16>)
        ensures
            r == spec_status_to(*self),
    {
        match *self {
            WSStatusCode::NoError => Some(1000u16),
            WSStatusCode::GoneAway => Some(1001u16),
            WSStatusCode::ProtocolError => Some(1002u16),
            WSStatusCode::UnsupportedData => Some(1003u16),
            WSStatusCode::NoCode => Some(1005u16),
            WSStatusCode::Aborted => Some(1006u16),
            WSStatusCode::InvalidData => Some(1007u16),
            WSStatusCode::ClientError => Some(1008u16),
            WSStatusCode::TooLargeData => Some(1009u16),
            WSStatusCode::ExtensionMissing => Some(1010u16),
            WSStatusCode::ServerError => Some(1011u16),
            WSStatusCode::TlsError => Some(1015u16),
            WSStatusCode::ProtocolCode(code) => if 1000 <= code && code <= 2999 {
                Some(code)
            } else {
                None
            },
            WSStatusCode::ApplicationCode(code) => if 3000 <= code && code <= 3999 {
                Some(code)
            } else {
                None
            },
            WSStatusCode::OtherCode(code) => if 4000 <= code && code <= 4999 {
                Some(code)
            } else {
                None
            },
        }
    }

    /// The status code a 16-bit number resolves to.
    pub fn from_u16(n: u16) -> (r: Option<WSStatusCode>)
        ensures
            r == spec_status_from(n),
    {
        if n == 1000 {
            Some(WSStatusCode::NoError)
        } else if n == 1001 {
            Some(WSStatusCode::GoneAway)
        } else if n == 1002 {
            Some(WSStatusCode::ProtocolError)
        } else if n == 1003 {
            Some(WSStatusCode::UnsupportedData)
        } else if n == 1005 {
            Some(WSStatusCode::NoCode)
        } else if n == 1006 {
            Some(WSStatusCode::Aborted)
        } else if n == 1007 {
            Some(WSStatusCode::InvalidData)
        } else if n == 1008 {
            Some(WSStatusCode::ClientError)
        } else if n == 1009 {
            Some(WSStatusCode::TooLargeData)
        } else if n == 1010 {
            Some(WSStatusCode::ExtensionMissing)
        } else if n == 1011 {
            Some(WSStatusCode::ServerError)
        } else if n == 1015 {
            Some(WSStatusCode::TlsError)
        } else if 1000 <= n && n <= 2999 {
            Some(WSStatusCode::ProtocolCode(n))
        } else if 3000 <= n && n <= 3999 {
            Some(WSStatusCode::ApplicationCode(n))
        } else if 4000 <= n && n <= 4999 {
            Some(WSStatusCode::OtherCode(n))
        } else {
            None
        }
    }
}

} // verus!

use crate::bytes::vec_range;
use crate::WSError;
use vstd::slice::slice_to_vec;
use vstd::string::*;
use vstd::utf8::encode_utf8;
use vstd::utf8::valid_utf8;

verus! {

/// The characters that `String::from_utf8_lossy` yields for a byte
/// sequence; a function of the bytes alone.
pub uninterp spec fn utf8_lossy_of(b: Seq<u8>) -> Seq<char>;

/// Relies on String::from_utf8_lossy: the result depends on the bytes
/// alone, and valid UTF-8 input decodes to exactly those bytes.
#[verifier::external_body]
fn utf8_lossy(data: &Vec<u8>) -> (r: String)
    ensures
        r@ == utf8_lossy_of(data@),
        valid_utf8(data@) ==> encode_utf8(r@) == data@,
{
    String::from_utf8_lossy(data.as_slice()).into_owned()
}

/// One logical unit of user data: the header bitfield, the payload octets
/// (excluding the close status code when present), and the optional 16-bit
/// close code.
#[derive(Debug)]
pub struct WSMessage {
    pub header: WSHeader,
    pub data: Vec<u8>,
    pub status: Option<WSStatusCode>,
}

impl WSMessage {
    /// The payload decoded as UTF-8, lossily, for diagnostics.
    pub fn to_string(&self) -> (r: String)
        ensures
            r@ == utf8_lossy_of(self.data@),
            valid_utf8(self.data@) ==> encode_utf8(r@) == self.data@,
    {
        utf8_lossy(&self.data)
    }

    /// Appends the other message's payload to this one's.
    pub fn push(&mut self, msg: WSMessage)
        ensures
            final(self).header == old(self).header,
            final(self).status == old(self).status,
            final(self).data@ == old(self).data@ + msg.data@,
    {
        let mut msg = msg;
        self.data.append(&mut msg.data);
    }

    /// A whole text message.
    pub fn text(data: &str) -> (r: WSMessage)
        ensures
            r.header.bits == WS_FIN | WS_OPTEXT,
            r.data@ == data.spec_bytes(),
            r.status is None,
    {
        WSMessage {
            header: WSHeader { bits: WS_FIN | WS_OPTEXT },
            data: data.as_bytes_vec(),
            status: None,
        }
    }

    /// A whole message under a reserved non-control opcode (3-7); only the
    /// low three bits of `extn` reach the opcode field.
    pub fn ext(extn: u8, data: &[u8]) -> (r: WSMessage)
        ensures
            r.header.bits == WS_FIN | (((extn & 0x7) as u16) << 8),
            r.data@ == data@,
            r.status is None,
    {
        WSMessage {
            header: WSHeader { bits: WS_FIN | (((extn & 0x7) as u16) << 8) },
            data: slice_to_vec(data),
            status: None,
        }
    }

    /// A whole binary message.
    pub fn binary(data: &[u8]) -> (r: WSMessage)
        ensures
            r.header.bits == WS_FIN | WS_OPBIN,
            r.data@ == data@,
            r.status is None,
    {
        WSMessage {
            header: WSHeader { bits: WS_FIN | WS_OPBIN },
            data: slice_to_vec(data),
            status: None,
        }
    }

    /// A whole close message carrying a status code.
    pub fn close(status: WSStatusCode, data: &[u8]) -> (r: WSMessage)
        ensures
            r.header.bits == WS_FIN | WS_OPTERM,
            r.data@ == data@,
            r.status == Some(status),
    {
        WSMessage {
            header: WSHeader { bits: WS_FIN | WS_OPTERM },
            data: slice_to_vec(data),
            status: Some(status),
        }
    }

    /// A whole ping message.
    pub fn ping(data: &[u8]) -> (r: WSMessage)
        ensures
            r.header.bits == WS_FIN | WS_OPPING,
            r.data@ == data@,
            r.status is None,
    {
        WSMessage {
            header: WSHeader { bits: WS_FIN | WS_OPPING },
            data: slice_to_vec(data),
            status: None,
        }
    }

    /// A whole pong message.
    pub fn pong(data: &[u8]) -> (r: WSMessage)
        ensures
            r.header.bits == WS_FIN | WS_OPPONG,
            r.data@ == data@,
            r.status is None,
    {
        WSMessage {
            header: WSHeader { bits: WS_FIN | WS_OPPONG },
            data: slice_to_vec(data),
            status: None,
        }
    }

    /// Clears FIN, keeping the opcode: a first fragment.
    pub fn first(self) -> (r: WSMessage)
        ensures
            r.header.bits == self.header.bits & !WS_FIN,
            r.data@ == self.data@,
            r.status == self.status,
    {
        let mut this = self;
        this.header.remove(WS_FIN);
        this
    }

    /// Clears FIN and sets opcode to continuation: a middle fragment.
    pub fn more(self) -> (r: WSMessage)
        ensures
            r.header.bits == self.header.bits & !(WS_FIN | WS_OPCODE),
            r.data@ == self.data@,
            r.status == self.status,
    {
        let mut this = self;
        this.header.remove(WS_FIN | WS_OPCODE);
        this
    }

    /// Sets FIN and the continuation opcode: a last fragment.
    pub fn last(self) -> (r: WSMessage)
        ensures
            r.header.bits == (self.header.bits & !WS_OPCODE) | (WS_FIN | WS_OPCONT),
            r.data@ == self.data@,
            r.status == self.status,
    {
        let mut this = self;
        this.header.remove(WS_OPCODE);
        this.header.insert(WS_FIN | WS_OPCONT);
        this
    }

    /// FIN clear and an opcode other than continuation.
    pub fn is_first(&self) -> (r: bool)
        ensures
            r == (!spec_fin(self.header.bits) && spec_opcode(self.header.bits) != WS_OPCONT),
    {
        !self.is_final() && !self.is_cont()
    }

    /// FIN set and the continuation opcode.
    pub fn is_last(&self) -> (r: bool)
        ensures
            r == (spec_fin(self.header.bits) && spec_opcode(self.header.bits) == WS_OPCONT),
    {
        self.is_final() && self.is_cont()
    }

    /// FIN clear and the continuation opcode.
    pub fn is_more(&self) -> (r: bool)
        ensures
            r == (!spec_fin(self.header.bits) && spec_opcode(self.header.bits) == WS_OPCONT),
    {
        !self.is_final() && self.is_cont()
    }

    /// FIN set and an opcode other than continuation.
    pub fn is_whole(&self) -> (r: bool)
        ensures
            r == (spec_fin(self.header.bits) && spec_opcode(self.header.bits) != WS_OPCONT),
    {
        self.is_final() && !self.is_cont()
    }

    /// The FIN flag.
    pub fn is_final(&self) -> (r: bool)
        ensures
            r == spec_fin(self.header.bits),
    {
        self.header.contains(WS_FIN)
    }

    /// The opcode bits, still in place within the 16-bit header.
    pub fn opcode(&self) -> (r: u16)
        ensures
            r == spec_opcode(self.header.bits),
    {
        self.header.bits() & WS_OPCODE
    }

    /// Sets the mask flag.
    pub fn mask(self) -> (r: WSMessage)
        ensures
            r.header.bits == self.header.bits | WS_MASK,
            r.data@ == self.data@,
            r.status == self.status,
    {
        let mut this = self;
        this.header.insert(WS_MASK);
        this
    }

    /// Clears the mask flag.
    pub fn unmask(self) -> (r: WSMessage)
        ensures
            r.header.bits == self.header.bits & !WS_MASK,
            r.data@ == self.data@,
            r.status == self.status,
    {
        let mut this = self;
        this.header.remove(WS_MASK);
        this
    }

    /// Sets or clears the mask flag in place.
    pub fn masked(&mut self, enabled: bool)
        ensures
            final(self).header.bits == if enabled {
                old(self).header.bits | WS_MASK
            } else {
                old(self).header.bits & !WS_MASK
            },
            final(self).data@ == old(self).data@,
            final(self).status == old(self).status,
    {
        if enabled {
            self.header.insert(WS_MASK);
        } else {
            self.header.remove(WS_MASK);
        }
    }

    /// The mask flag.
    pub fn is_masked(&self) -> (r: bool)
        ensures
            r == spec_masked(self.header.bits),
    {
        self.header.contains(WS_MASK)
    }

    /// Whether the opcode is a control one (0x8 and above).
    pub fn is_control(&self) -> (r: bool)
        ensures
            r == (self.header.bits & WS_OPCTRL == WS_OPCTRL),
    {
        self.header.contains(WS_OPCTRL)
    }

    /// Sets reserved bits; only the low three bits of `n` reach the field.
    pub fn rsv(self, n: u8) -> (r: WSMessage)
        ensures
            r.header.bits == self.header.bits | (((n & 0x7) as u16) << 12),
            r.data@ == self.data@,
            r.status == self.status,
    {
        let mut this = self;
        this.header.insert(((n & 0x7) as u16) << 12);
        this
    }

    /// Whether the three reserved bits hold exactly `n`.
    pub fn is_rsv(&self, n: u8) -> (r: bool)
        ensures
            r == ((((self.header.bits >> 12) as u8) & 0x7) == n),
    {
        (((self.header.bits() >> 12) as u8) & 0x7) == n
    }

    /// The text opcode.
    pub fn is_text(&self) -> (r: bool)
        ensures
            r == (spec_opcode(self.header.bits) == WS_OPTEXT),
    {
        self.opcode() == WS_OPTEXT
    }

    /// The binary opcode.
    pub fn is_binary(&self) -> (r: bool)
        ensures
            r == (spec_opcode(self.header.bits) == WS_OPBIN),
    {
        self.opcode() == WS_OPBIN
    }

    /// Whether the low three opcode bits hold exactly `n`.
    pub fn is_isext(&self, n: u8) -> (r: bool)
        ensures
            r == ((((spec_opcode(self.header.bits) >> 8) as u8) & 0x7) == n),
    {
        (((self.opcode() >> 8) as u8) & 0x7) == n
    }

    /// The ping opcode.
    pub fn is_ping(&self) -> (r: bool)
        ensures
            r == (spec_opcode(self.header.bits) == WS_OPPING),
    {
        self.opcode() == WS_OPPING
    }

    /// The pong opcode.
    pub fn is_pong(&self) -> (r: bool)
        ensures
            r == (spec_opcode(self.header.bits) == WS_OPPONG),
    {
        self.opcode() == WS_OPPONG
    }

    /// The close opcode.
    pub fn is_close(&self) -> (r: bool)
        ensures
            r == (spec_opcode(self.header.bits) == WS_OPTERM),
    {
        self.opcode() == WS_OPTERM
    }

    /// The continuation opcode.
    pub fn is_cont(&self) -> (r: bool)
        ensures
            r == (spec_opcode(self.header.bits) == WS_OPCONT),
    {
        self.opcode() == WS_OPCONT
    }
}

} // verus!

verus! {

/// The shape of one fragment: header bits, payload, and carried status.
pub ghost struct FragSpec {
    pub hdr: u16,
    pub data: Seq<u8>,
    pub status: Option<WSStatusCode>,
}

/// How many wire payload octets the status code occupies.
pub open spec fn status_len(status: Option<WSStatusCode>) -> nat {
    if status is Some {
        2
    } else {
        0
    }
}

/// The fragments a fragmentation state will emit: `hdr`, `status` and
/// `pos` describe the message as the iterator holds it, `size` the octets
/// (payload plus status) not yet emitted, `max` the cap per fragment. A
/// state with `pos == 0` is untouched; later states carry the continuation
/// header and no status. A remainder that fits the cap is one fragment,
/// also when it is empty: a whole empty message is yielded unchanged.
pub open spec fn frags(
    hdr: u16,
    data: Seq<u8>,
    status: Option<WSStatusCode>,
    max: nat,
    pos: nat,
    size: nat,
) -> Seq<FragSpec>
    decreases size,
{
    if max == 0 {
        Seq::empty()
    } else if size <= max {
        seq![FragSpec { hdr: hdr | WS_FIN, data: data.subrange(pos as int, data.len() as int), status }]
    } else if pos == 0 {
        let firstlen = if max >= status_len(status) {
            (max - status_len(status)) as nat
        } else {
            0
        };
        seq![FragSpec { hdr: hdr & !WS_FIN, data: data.subrange(0, firstlen as int), status }]
            + frags(hdr & !(WS_FIN | WS_OPCODE), data, None, max, firstlen, (size - max) as nat)
    } else {
        seq![FragSpec { hdr: hdr, data: data.subrange(pos as int, (pos + max) as int), status: None }]
            + frags(hdr, data, None, max, (pos + max) as nat, (size - max) as nat)
    }
}

/// Whether an emitted message has exactly a fragment's shape.
pub open spec fn frag_matches(m: WSMessage, f: FragSpec) -> bool {
    &&& m.header.bits == f.hdr
    &&& m.data@ == f.data
    &&& m.status == f.status
}

/// The shape of a message, for spec-level reasoning.
pub open spec fn frag_of(m: WSMessage) -> FragSpec {
    FragSpec { hdr: m.header.bits, data: m.data@, status: m.status }
}

/// FIN set, opcode other than continuation: a whole message.
pub open spec fn spec_is_whole(bits: u16) -> bool {
    spec_fin(bits) && spec_opcode(bits) != WS_OPCONT
}

/// FIN clear, opcode other than continuation: a first fragment.
pub open spec fn spec_is_first(bits: u16) -> bool {
    !spec_fin(bits) && spec_opcode(bits) != WS_OPCONT
}

/// FIN clear, continuation opcode: a middle fragment.
pub open spec fn spec_is_more(bits: u16) -> bool {
    !spec_fin(bits) && spec_opcode(bits) == WS_OPCONT
}

/// FIN set, continuation opcode: a last fragment.
pub open spec fn spec_is_last(bits: u16) -> bool {
    spec_fin(bits) && spec_opcode(bits) == WS_OPCONT
}

/// A finite lazy sequence of wire-sized fragments of one message.
pub struct WSFragmentedMessage {
    original: WSMessage,
    maxsize: usize,
    pos: usize,
    size: usize,
    done: bool,
}

impl WSFragmentedMessage {
    /// The iterator's well-formedness: the per-fragment cap leaves room for
    /// the status code, and the cursor fields describe the data.
    pub closed spec fn wf(self) -> bool {
        &&& self.maxsize >= 1
        &&& self.original.status is Some ==> self.maxsize >= 2
        &&& self.pos <= self.original.data@.len()
        &&& {
            ||| self.done
            ||| (self.pos == 0 && self.size == self.original.data@.len() + status_len(
                self.original.status,
            ))
            ||| (self.pos > 0 && self.original.status is None && self.size == self.original.data@.len()
                - self.pos)
        }
    }

    /// The fragments this iterator will still emit.
    pub closed spec fn remaining(self) -> Seq<FragSpec> {
        if self.done {
            Seq::empty()
        } else {
            frags(
                self.original.header.bits,
                self.original.data@,
                self.original.status,
                self.maxsize as nat,
                self.pos as nat,
                self.size as nat,
            )
        }
    }

    /// The next fragment: the whole remainder when it fits under the cap
    /// (a whole empty message is yielded once, unchanged), otherwise a
    /// slice of `maxsize` octets; the status code travels with the first
    /// fragment and counts toward its size.
    pub fn next(&mut self) -> (r: Option<WSMessage>)
        requires
            old(self).wf(),
        ensures
            final(self).wf(),
            (r is Some) == (old(self).remaining().len() > 0),
            r matches Some(m) ==> frag_matches(m, old(self).remaining()[0])
                && final(self).remaining() =~= old(self).remaining().drop_first(),
            r is None ==> final(self).remaining() =~= Seq::<FragSpec>::empty(),
    {
        if self.done {
            None
        } else if self.size <= self.maxsize {
            self.done = true;
            Some(
                WSMessage {
                    header: WSHeader { bits: self.original.header.bits | WS_FIN },
                    data: vec_range(&self.original.data, self.pos, self.original.data.len()),
                    status: self.original.status,
                },
            )
        } else if self.pos == 0 {
            let firstlen: usize = if self.original.status.is_some() {
                self.maxsize - 2
            } else {
                self.maxsize
            };
            let result = Some(
                WSMessage {
                    header: WSHeader { bits: self.original.header.bits & !WS_FIN },
                    data: vec_range(&self.original.data, 0, firstlen),
                    status: self.original.status,
                },
            );
            self.original.header.bits = self.original.header.bits & !(WS_FIN | WS_OPCODE);
            self.original.status = None;
            self.pos = firstlen;
            self.size = self.size - self.maxsize;
            result
        } else {
            let dlen: usize = self.original.data.len();
            proof {
                assert(self.pos + self.maxsize <= dlen);
            }
            let end: usize = self.pos + self.maxsize;
            let result = Some(
                WSMessage {
                    header: self.original.header,
                    data: vec_range(&self.original.data, self.pos, end),
                    status: None,
                },
            );
            self.pos = self.pos + self.maxsize;
            self.size = self.size - self.maxsize;
            result
        }
    }
}

impl WSMessage {
    /// The fragment iterator over this message; `maxlen` caps each
    /// fragment's wire payload. Rejected: a zero cap (the iterator would
    /// never terminate), and a cap of one octet when a two-octet status
    /// code must travel with the first fragment.
    pub fn split(self, maxlen: usize) -> (r: Result<WSFragmentedMessage, WSError>)
        requires
            self.status is Some ==> self.data@.len() + 2 <= usize::MAX,
        ensures
            r is Err <==> (maxlen == 0 || (self.status is Some && maxlen < 2)),
            r matches Err(e) ==> e == WSError::InvalidInput,
            r matches Ok(it) ==> it.wf() && it.remaining() == frags(
                self.header.bits,
                self.data@,
                self.status,
                maxlen as nat,
                0,
                self.data@.len() + status_len(self.status),
            ),
    {
        if maxlen == 0 || (self.status.is_some() && maxlen < 2) {
            return Err(WSError::InvalidInput);
        }
        let size: usize = if self.status.is_some() {
            self.data.len() + 2
        } else {
            self.data.len()
        };
        Ok(WSFragmentedMessage { original: self, maxsize: maxlen, pos: 0, size, done: false })
    }
}

} // verus!

verus! {

/// The payloads of a fragment sequence, in order, as one octet sequence.
pub open spec fn concat_frag_payloads(fs: Seq<FragSpec>) -> Seq<u8>
    decreases fs.len(),
{
    if fs.len() == 0 {
        Seq::empty()
    } else {
        fs[0].data + concat_frag_payloads(fs.drop_first())
    }
}

proof fn lemma_concat_cons(x: FragSpec, rest: Seq<FragSpec>)
    ensures
        concat_frag_payloads(seq![x] + rest) =~= x.data + concat_frag_payloads(rest),
{
    let fs = seq![x] + rest;
    assert(fs[0] == x);
    assert(fs.drop_first() =~= rest);
}

pub(crate) proof fn lemma_header_ops(h: u16)
    by (bit_vector)
    ensures
        spec_fin(h) ==> (h | WS_FIN) == h,
        spec_fin(h) ==> ((h & !WS_FIN) | WS_FIN) == h,
        (!spec_fin(h) && spec_opcode(h) == WS_OPCONT) ==> (h & !WS_FIN) == h && (h & !(WS_FIN
            | WS_OPCODE)) == h,
        spec_fin(h | WS_FIN),
        spec_opcode(h | WS_FIN) == spec_opcode(h),
        spec_rsv(h | WS_FIN) == spec_rsv(h),
        !spec_fin(h & !WS_FIN),
        spec_opcode(h & !WS_FIN) == spec_opcode(h),
        spec_rsv(h & !WS_FIN) == spec_rsv(h),
        !spec_fin(h & !(WS_FIN | WS_OPCODE)),
        spec_opcode(h & !(WS_FIN | WS_OPCODE)) == WS_OPCONT,
        spec_rsv(h & !(WS_FIN | WS_OPCODE)) == spec_rsv(h),
        spec_masked(h | WS_FIN) == spec_masked(h),
        spec_masked(h & !WS_FIN) == spec_masked(h),
        spec_masked(h & !(WS_FIN | WS_OPCODE)) == spec_masked(h),
{
}

/// Fragment states past the first emission: the header carries FIN clear
/// and the continuation opcode, the status is gone, and `size` counts the
/// data octets left. Every later fragment repeats that header except the
/// last, which adds FIN; the payloads concatenate to the data's tail.
proof fn lemma_frags_tail(hdr: u16, data: Seq<u8>, max: nat, pos: nat, size: nat)
    requires
        max >= 1,
        pos <= data.len(),
        size == data.len() - pos,
        size >= 1,
        !spec_fin(hdr),
        spec_opcode(hdr) == WS_OPCONT,
    ensures
        frags(hdr, data, None, max, pos, size).len() >= 1,
        concat_frag_payloads(frags(hdr, data, None, max, pos, size)) =~= data.subrange(
            pos as int,
            data.len() as int,
        ),
        forall|i: int|
            0 <= i < frags(hdr, data, None, max, pos, size).len() ==> (#[trigger] frags(
                hdr,
                data,
                None,
                max,
                pos,
                size,
            )[i]).status is None && frags(hdr, data, None, max, pos, size)[i].data.len() <= max,
        forall|i: int|
            0 <= i < frags(hdr, data, None, max, pos, size).len() - 1 ==> (#[trigger] frags(
                hdr,
                data,
                None,
                max,
                pos,
                size,
            )[i]).hdr == hdr,
        frags(hdr, data, None, max, pos, size)[frags(
            hdr,
            data,
            None,
            max,
            pos,
            size,
        ).len() - 1].hdr == hdr | WS_FIN,
    decreases size,
{
    lemma_header_ops(hdr);
    let fs = frags(hdr, data, None, max, pos, size);
    if size <= max {
        let x = FragSpec { hdr: hdr | WS_FIN, data: data.subrange(pos as int, data.len() as int), status: None };
        assert(fs =~= seq![x]);
        lemma_concat_cons(x, Seq::empty());
        assert(concat_frag_payloads(Seq::<FragSpec>::empty()) =~= Seq::<u8>::empty());
        assert(concat_frag_payloads(fs) =~= x.data);
    } else if pos == 0 {
        let x = FragSpec { hdr: hdr & !WS_FIN, data: data.subrange(0, max as int), status: None };
        let rest = frags(hdr & !(WS_FIN | WS_OPCODE), data, None, max, max, (size - max) as nat);
        assert(hdr & !(WS_FIN | WS_OPCODE) == hdr);
        assert(hdr & !WS_FIN == hdr);
        assert(fs =~= seq![x] + rest);
        lemma_frags_tail(hdr, data, max, max, (size - max) as nat);
        lemma_concat_cons(x, rest);
        assert(data.subrange(pos as int, data.len() as int) =~= data.subrange(0, max as int)
            + data.subrange(max as int, data.len() as int));
        assert(forall|i: int| 0 <= i < rest.len() ==> fs[i + 1] == rest[i]);
        assert forall|i: int| 0 <= i < fs.len() - 1 implies (#[trigger] fs[i]).hdr == hdr by {
            if i >= 1 {
                assert(fs[i] == rest[i - 1]);
            }
        }
    } else {
        let x = FragSpec {
            hdr: hdr,
            data: data.subrange(pos as int, (pos + max) as int),
            status: None,
        };
        let rest = frags(hdr, data, None, max, (pos + max) as nat, (size - max) as nat);
        assert(fs =~= seq![x] + rest);
        lemma_frags_tail(hdr, data, max, (pos + max) as nat, (size - max) as nat);
        lemma_concat_cons(x, rest);
        assert(data.subrange(pos as int, data.len() as int) =~= data.subrange(
            pos as int,
            (pos + max) as int,
        ) + data.subrange((pos + max) as int, data.len() as int));
        assert(forall|i: int| 0 <= i < rest.len() ==> fs[i + 1] == rest[i]);
        assert forall|i: int| 0 <= i < fs.len() - 1 implies (#[trigger] fs[i]).hdr == hdr by {
            if i >= 1 {
                assert(fs[i] == rest[i - 1]);
            }
        }
    }
}

/// For every whole message without a status code and every cap `n >= 1`,
/// the fragment payloads concatenate back to the message's data; a lone
/// fragment (always the case when the data fits the cap, the empty data
/// included) is the message itself, and otherwise the first fragment
/// keeps the opcode with FIN clear, the middle ones carry the
/// continuation opcode with FIN clear, and the last carries it with FIN
/// set.
pub proof fn lemma_split_fragments(hdr: u16, data: Seq<u8>, n: nat)
    requires
        n >= 1,
        spec_fin(hdr),
        spec_opcode(hdr) != WS_OPCONT,
    ensures
        concat_frag_payloads(frags(hdr, data, None, n, 0, data.len())) =~= data,
        frags(hdr, data, None, n, 0, data.len()).len() >= 1,
        data.len() <= n <==> frags(hdr, data, None, n, 0, data.len()).len() == 1,
        forall|i: int|
            0 <= i < frags(hdr, data, None, n, 0, data.len()).len() ==> (#[trigger] frags(
                hdr,
                data,
                None,
                n,
                0,
                data.len(),
            )[i]).status is None && frags(hdr, data, None, n, 0, data.len())[i].data.len() <= n,
        frags(hdr, data, None, n, 0, data.len()).len() == 1 ==> frags(
            hdr,
            data,
            None,
            n,
            0,
            data.len(),
        )[0] == (FragSpec { hdr, data, status: None }),
        frags(hdr, data, None, n, 0, data.len()).len() > 1 ==> {
            let fs = frags(hdr, data, None, n, 0, data.len());
            &&& !spec_fin(fs[0].hdr)
            &&& spec_opcode(fs[0].hdr) == spec_opcode(hdr)
            &&& fs[0].data =~= data.subrange(0, n as int)
            &&& (forall|i: int|
                1 <= i < fs.len() - 1 ==> !spec_fin((#[trigger] fs[i]).hdr) && spec_opcode(
                    fs[i].hdr,
                ) == WS_OPCONT)
            &&& spec_fin(fs[fs.len() - 1].hdr)
            &&& spec_opcode(fs[fs.len() - 1].hdr) == WS_OPCONT
        },
{
    lemma_header_ops(hdr);
    let fs = frags(hdr, data, None, n, 0, data.len());
    if data.len() <= n {
        let x = FragSpec { hdr: hdr | WS_FIN, data: data.subrange(0, data.len() as int), status: None };
        assert(fs =~= seq![x]);
        assert(x.data =~= data);
        assert(hdr | WS_FIN == hdr);
        lemma_concat_cons(x, Seq::empty());
        assert(concat_frag_payloads(fs) =~= data);
    } else {
        let hdr2 = hdr & !(WS_FIN | WS_OPCODE);
        lemma_header_ops(hdr2);
        let x = FragSpec { hdr: hdr & !WS_FIN, data: data.subrange(0, n as int), status: None };
        let rest = frags(hdr2, data, None, n, n, (data.len() - n) as nat);
        assert(fs =~= seq![x] + rest);
        lemma_frags_tail(hdr2, data, n, n, (data.len() - n) as nat);
        lemma_concat_cons(x, rest);
        assert(data =~= data.subrange(0, n as int) + data.subrange(n as int, data.len() as int));
        assert(forall|i: int| 0 <= i < rest.len() ==> fs[i + 1] == rest[i]);
        assert(rest.len() > 0);
        assert(fs[fs.len() - 1] == rest[rest.len() - 1]);
        assert(fs[fs.len() - 1].hdr == hdr2 | WS_FIN);
        assert forall|i: int| 1 <= i < fs.len() - 1 implies !spec_fin((#[trigger] fs[i]).hdr)
            && spec_opcode(fs[i].hdr) == WS_OPCONT by {
            assert(fs[i] == rest[i - 1]);
            assert(rest[i - 1].hdr == hdr2);
        }
        assert(spec_fin(hdr2 | WS_FIN));
        assert(spec_opcode(hdr2 | WS_FIN) == WS_OPCONT);
    }
}

/// A cap equal to the data length of a whole, status-free message with at
/// least one octet yields exactly one fragment: the message itself.
pub proof fn lemma_split_exact_fit(hdr: u16, data: Seq<u8>)
    requires
        data.len() >= 1,
        spec_fin(hdr),
        spec_opcode(hdr) != WS_OPCONT,
    ensures
        frags(hdr, data, None, data.len(), 0, data.len()) =~= seq![
            FragSpec { hdr, data, status: None },
        ],
{
    lemma_split_fragments(hdr, data, data.len());
    let fs = frags(hdr, data, None, data.len(), 0, data.len());
    assert(fs.len() == 1);
}

} // verus!

