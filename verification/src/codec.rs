//! Bit-exact encoding and decoding of one WebSocket frame.
use vstd::prelude::*;
use vstd::slice::slice_index_get;

verus! {

/// The key octet that masks payload octet `i`: the key is held as a 32-bit
/// big-endian integer and its octets are applied low byte first, cycling
/// every four octets.
pub open spec fn key_octet(key: u32, i: int) -> u8 {
    if i % 4 == 0 {
        (key & 0xff) as u8
    } else if i % 4 == 1 {
        ((key >> 8) & 0xff) as u8
    } else if i % 4 == 2 {
        ((key >> 16) & 0xff) as u8
    } else {
        ((key >> 24) & 0xff) as u8
    }
}

/// The masking transform: octet `i` XORed with its key octet.
pub open spec fn mask_seq(key: u32, data: Seq<u8>) -> Seq<u8> {
    Seq::new(data.len(), |i: int| data[i] ^ key_octet(key, i))
}

/// The key rotated right by 16 bits, so that payload masking resumes at
/// key-byte index 2 after the status code consumed the first two.
pub open spec fn spec_rotr16(key: u32) -> u32 {
    (key >> 16) | ((key & 0xffff) << 16)
}

/// The top 16 bits of the key, which mask the status code.
pub open spec fn spec_hi16(key: u32) -> u16 {
    (key >> 16) as u16
}

/// The two octets of a 16-bit value, big-endian.
pub open spec fn be2(x: u16) -> Seq<u8> {
    seq![((x >> 8) & 0xff) as u8, (x & 0xff) as u8]
}

/// The four octets of a 32-bit value, big-endian.
pub open spec fn be4(x: u32) -> Seq<u8> {
    seq![
        ((x >> 24) & 0xff) as u8,
        ((x >> 16) & 0xff) as u8,
        ((x >> 8) & 0xff) as u8,
        (x & 0xff) as u8,
    ]
}

/// The eight octets of a 64-bit value, big-endian.
pub open spec fn be8(x: u64) -> Seq<u8> {
    seq![
        ((x >> 56) & 0xff) as u8,
        ((x >> 48) & 0xff) as u8,
        ((x >> 40) & 0xff) as u8,
        ((x >> 32) & 0xff) as u8,
        ((x >> 24) & 0xff) as u8,
        ((x >> 16) & 0xff) as u8,
        ((x >> 8) & 0xff) as u8,
        (x & 0xff) as u8,
    ]
}

/// The 16-bit value of two big-endian octets.
pub open spec fn be2val(b0: u8, b1: u8) -> u16 {
    ((b0 as u16) << 8) | (b1 as u16)
}

/// The 32-bit value of four big-endian octets.
pub open spec fn be4val(b0: u8, b1: u8, b2: u8, b3: u8) -> u32 {
    ((b0 as u32) << 24) | ((b1 as u32) << 16) | ((b2 as u32) << 8) | (b3 as u32)
}

/// The 64-bit value of eight big-endian octets.
pub open spec fn be8val(b0: u8, b1: u8, b2: u8, b3: u8, b4: u8, b5: u8, b6: u8, b7: u8) -> u64 {
    ((b0 as u64) << 56) | ((b1 as u64) << 48) | ((b2 as u64) << 40) | ((b3 as u64) << 32) | ((
    b4 as u64) << 24) | ((b5 as u64) << 16) | ((b6 as u64) << 8) | (b7 as u64)
}

proof fn lemma_xor8_twice(b: u8, k: u8)
    by (bit_vector)
    ensures
        (b ^ k) ^ k == b,
{
}

proof fn lemma_xor16_twice(s: u16, k: u16)
    by (bit_vector)
    ensures
        (s ^ k) ^ k == s,
{
}

proof fn lemma_be2_roundtrip(x: u16)
    by (bit_vector)
    ensures
        be2val(((x >> 8) & 0xff) as u8, (x & 0xff) as u8) == x,
{
}

proof fn lemma_be4_roundtrip(x: u32)
    by (bit_vector)
    ensures
        be4val(
            ((x >> 24) & 0xff) as u8,
            ((x >> 16) & 0xff) as u8,
            ((x >> 8) & 0xff) as u8,
            (x & 0xff) as u8,
        ) == x,
{
}

proof fn lemma_be8_roundtrip(x: u64)
    by (bit_vector)
    ensures
        be8val(
            ((x >> 56) & 0xff) as u8,
            ((x >> 48) & 0xff) as u8,
            ((x >> 40) & 0xff) as u8,
            ((x >> 32) & 0xff) as u8,
            ((x >> 24) & 0xff) as u8,
            ((x >> 16) & 0xff) as u8,
            ((x >> 8) & 0xff) as u8,
            (x & 0xff) as u8,
        ) == x,
        x < 0x8000000000000000 ==> (((x >> 56) & 0xff) as u8) & 0x80 == 0,
{
}

/// Applying the masking transform twice with one key returns the payload.
pub proof fn lemma_mask_involution(key: u32, data: Seq<u8>)
    ensures
        mask_seq(key, mask_seq(key, data)) =~= data,
{
    assert forall|i: int| 0 <= i < data.len() implies mask_seq(key, mask_seq(key, data))[i]
        == data[i] by {
        lemma_xor8_twice(data[i], key_octet(key, i));
    }
}

/// The payload masked with `mask`, octet by octet.
pub fn mask_data(data: &[u8], mask: u32) -> (r: Vec<u8>)
    ensures
        r@ == mask_seq(mask, data@),
{
    let mut out: Vec<u8> = Vec::new();
    let mut i: usize = 0;
    while i < data.len()
        invariant
            i <= data@.len(),
            out@.len() == i,
            forall|j: int| 0 <= j < i ==> out@[j] == data@[j] ^ key_octet(mask, j),
        decreases data@.len() - i,
    {
        let b: u8 = *slice_index_get(data, i);
        let rem: usize = i % 4;
        let k: u8 = if rem == 0 {
            (mask & 0xff) as u8
        } else if rem == 1 {
            ((mask >> 8) & 0xff) as u8
        } else if rem == 2 {
            ((mask >> 16) & 0xff) as u8
        } else {
            ((mask >> 24) & 0xff) as u8
        };
        out.push(b ^ k);
        i = i + 1;
    }
    proof {
        assert(out@ =~= mask_seq(mask, data@));
    }
    out
}

/// The key rotated right by 16 bits.
pub fn rotr16(key: u32) -> (r: u32)
    ensures
        r == spec_rotr16(key),
{
    (key >> 16) | ((key & 0xffff) << 16)
}

fn push_be2(out: &mut Vec<u8>, x: u16)
    ensures
        final(out)@ =~= old(out)@ + be2(x),
{
    out.push(((x >> 8) & 0xff) as u8);
    out.push((x & 0xff) as u8);
}

fn push_be4(out: &mut Vec<u8>, x: u32)
    ensures
        final(out)@ =~= old(out)@ + be4(x),
{
    out.push(((x >> 24) & 0xff) as u8);
    out.push(((x >> 16) & 0xff) as u8);
    out.push(((x >> 8) & 0xff) as u8);
    out.push((x & 0xff) as u8);
}

fn push_be8(out: &mut Vec<u8>, x: u64)
    ensures
        final(out)@ =~= old(out)@ + be8(x),
{
    out.push(((x >> 56) & 0xff) as u8);
    out.push(((x >> 48) & 0xff) as u8);
    out.push(((x >> 40) & 0xff) as u8);
    out.push(((x >> 32) & 0xff) as u8);
    out.push(((x >> 24) & 0xff) as u8);
    out.push(((x >> 16) & 0xff) as u8);
    out.push(((x >> 8) & 0xff) as u8);
    out.push((x & 0xff) as u8);
}

fn read_be2(buf: &[u8], off: usize) -> (r: u16)
    requires
        off + 2 <= buf@.len(),
    ensures
        r == be2val(buf@[off as int], buf@[off as int + 1]),
{
    let blen: usize = buf.len();
    proof {
        assert(off + 2 <= blen);
    }
    let b0: u8 = *slice_index_get(buf, off);
    let b1: u8 = *slice_index_get(buf, off + 1);
    ((b0 as u16) << 8) | (b1 as u16)
}

fn read_be4(buf: &[u8], off: usize) -> (r: u32)
    requires
        off + 4 <= buf@.len(),
    ensures
        r == be4val(
            buf@[off as int],
            buf@[off as int + 1],
            buf@[off as int + 2],
            buf@[off as int + 3],
        ),
{
    let blen: usize = buf.len();
    proof {
        assert(off + 4 <= blen);
    }
    let b0: u8 = *slice_index_get(buf, off);
    let b1: u8 = *slice_index_get(buf, off + 1);
    let b2: u8 = *slice_index_get(buf, off + 2);
    let b3: u8 = *slice_index_get(buf, off + 3);
    ((b0 as u32) << 24) | ((b1 as u32) << 16) | ((b2 as u32) << 8) | (b3 as u32)
}

fn read_be8(buf: &[u8], off: usize) -> (r: u64)
    requires
        off + 8 <= buf@.len(),
    ensures
        r == be8val(
            buf@[off as int],
            buf@[off as int + 1],
            buf@[off as int + 2],
            buf@[off as int + 3],
            buf@[off as int + 4],
            buf@[off as int + 5],
            buf@[off as int + 6],
            buf@[off as int + 7],
        ),
{
    let blen: usize = buf.len();
    proof {
        assert(off + 8 <= blen);
    }
    let b0: u8 = *slice_index_get(buf, off);
    let b1: u8 = *slice_index_get(buf, off + 1);
    let b2: u8 = *slice_index_get(buf, off + 2);
    let b3: u8 = *slice_index_get(buf, off + 3);
    let b4: u8 = *slice_index_get(buf, off + 4);
    let b5: u8 = *slice_index_get(buf, off + 5);
    let b6: u8 = *slice_index_get(buf, off + 6);
    let b7: u8 = *slice_index_get(buf, off + 7);
    ((b0 as u64) << 56) | ((b1 as u64) << 48) | ((b2 as u64) << 40) | ((b3 as u64) << 32) | ((
    b4 as u64) << 24) | ((b5 as u64) << 16) | ((b6 as u64) << 8) | (b7 as u64)
}

} // verus!

use crate::message::WSHeader;
use crate::message::WSMessage;
use crate::message::WSStatusCode;
use crate::message::WS_LEN;
use crate::message::WS_LEN16;
use crate::message::WS_LEN64;
use crate::message::WS_MASK;
use crate::message::WS_OPCODE;
use crate::message::WS_OPTERM;
use crate::message::spec_lencode;
use crate::message::spec_masked;
use crate::message::spec_opcode;
use crate::message::spec_status_from;
use crate::message::spec_status_to;
use crate::message::status_len;
use crate::WSError;
use vstd::slice::slice_subrange;
use vstd::slice::slice_to_vec;

verus! {

/// The 16-bit number carried by an optional status code; `None` both for a
/// missing status and for one outside its variant's range.
pub open spec fn raw_status_of(status: Option<WSStatusCode>) -> Option<u16> {
    match status {
        Some(s) => spec_status_to(s),
        None => None,
    }
}

/// How many wire payload octets an optional raw status occupies.
pub open spec fn opt16_len(status: Option<u16>) -> nat {
    if status is Some {
        2
    } else {
        0
    }
}

/// The 7-bit length code announcing a wire payload of `plen` octets: the
/// smallest of the three length representations that fits.
pub open spec fn spec_lencode_of(plen: nat) -> u16 {
    if plen <= 125 {
        plen as u16
    } else if plen <= 65535 {
        126
    } else {
        127
    }
}

/// The extended length octets following the header, when the length code
/// alone cannot hold the payload length.
pub open spec fn spec_extlen(plen: nat) -> Seq<u8> {
    if plen <= 125 {
        Seq::empty()
    } else if plen <= 65535 {
        be2(plen as u16)
    } else {
        be8(plen as u64)
    }
}

/// The two status octets on the wire: the raw code XORed with the top 16
/// bits of the mask key, big-endian.
pub open spec fn spec_status_bytes(status: Option<u16>, key: u32) -> Seq<u8> {
    match status {
        Some(s) => be2(s ^ spec_hi16(key)),
        None => Seq::empty(),
    }
}

/// The key that masks the payload octets: rotated right by 16 bits when a
/// status code already consumed two key octets.
pub open spec fn payload_key(status: Option<u16>, key: u32) -> u32 {
    if status is Some {
        spec_rotr16(key)
    } else {
        key
    }
}

/// The exact octets of one client-sent frame: the header with the mask
/// flag forced on and the length field replaced, the extended length, the
/// mask key, the masked status code, and the masked payload.
pub open spec fn spec_write_frame(hdr: u16, data: Seq<u8>, status: Option<u16>, key: u32) -> Seq<
    u8,
> {
    let plen = data.len() + opt16_len(status);
    be2((hdr & !(WS_MASK | WS_LEN)) | WS_MASK | spec_lencode_of(plen)) + spec_extlen(plen) + be4(
        key,
    ) + spec_status_bytes(status, key) + mask_seq(payload_key(status, key), data)
}

/// Encodes one frame for sending. The caller is the client, so the mask
/// flag is always set and `key` masks the payload. The length written is
/// the data length plus two when a status code is attached; the status
/// must be one that converts to a number.
pub fn write_frame(msg: &WSMessage, key: u32) -> (r: Vec<u8>)
    requires
        msg.status matches Some(s) ==> spec_status_to(s) is Some,
        msg.status is Some ==> msg.data@.len() + 2 <= usize::MAX,
        msg.data@.len() + status_len(msg.status) < 0x8000000000000000,
    ensures
        r@ == spec_write_frame(msg.header.bits, msg.data@, raw_status_of(msg.status), key),
{
    let sraw: Option<u16> = match &msg.status {
        Some(s) => s.to_u16(),
        None => None,
    };
    let plen: usize = if sraw.is_some() {
        msg.data.len() + 2
    } else {
        msg.data.len()
    };
    let lencode: u16 = if plen <= 125 {
        plen as u16
    } else if plen <= 65535 {
        126
    } else {
        127
    };
    let h: u16 = (msg.header.bits() & !(WS_MASK | WS_LEN)) | WS_MASK | lencode;
    let mut out: Vec<u8> = Vec::new();
    push_be2(&mut out, h);
    if plen > 125 {
        if plen <= 65535 {
            push_be2(&mut out, plen as u16);
        } else {
            push_be8(&mut out, plen as u64);
        }
    }
    push_be4(&mut out, key);
    let pkey: u32 = match sraw {
        Some(s) => {
            push_be2(&mut out, s ^ ((key >> 16) as u16));
            rotr16(key)
        },
        None => key,
    };
    let mut payload = mask_data(msg.data.as_slice(), pkey);
    out.append(&mut payload);
    proof {
        assert(out@ =~= spec_write_frame(
            msg.header.bits,
            msg.data@,
            raw_status_of(msg.status),
            key,
        ));
    }
    out
}

/// What one frame decodes to: the wire header, the unmasked payload (with
/// the status octets stripped), the resolved status, and the octets
/// consumed.
pub ghost struct DecodedFrame {
    pub hdr: u16,
    pub data: Seq<u8>,
    pub status: Option<WSStatusCode>,
    pub used: int,
}

/// Decoding after the mask key: a close frame announcing at least two
/// payload octets starts with the raw status code, unmasked with the top
/// 16 key bits; the rest is payload, unmasked with the (then rotated) key.
pub open spec fn spec_read_body(b: Seq<u8>, h: u16, len: nat, off: int, key: Option<u32>) -> Result<
    Option<DecodedFrame>,
    WSError,
> {
    if spec_opcode(h) == WS_OPTERM && len >= 2 {
        if b.len() < off + 2 + (len - 2) {
            Ok(None)
        } else {
            let raw = be2val(b[off], b[off + 1]);
            let payload = b.subrange(off + 2, off + 2 + (len - 2));
            let sval = match key {
                Some(k) => raw ^ spec_hi16(k),
                None => raw,
            };
            let data = match key {
                Some(k) => mask_seq(spec_rotr16(k), payload),
                None => payload,
            };
            Ok(
                Some(
                    DecodedFrame {
                        hdr: h,
                        data,
                        status: spec_status_from(sval),
                        used: off + 2 + (len - 2),
                    },
                ),
            )
        }
    } else {
        if b.len() < off + len {
            Ok(None)
        } else {
            let payload = b.subrange(off, off + len);
            let data = match key {
                Some(k) => mask_seq(k, payload),
                None => payload,
            };
            Ok(Some(DecodedFrame { hdr: h, data, status: None, used: off + len }))
        }
    }
}

/// Decoding after the length: a set mask flag announces four key octets.
pub open spec fn spec_read_mask(b: Seq<u8>, h: u16, len: nat, off: int) -> Result<
    Option<DecodedFrame>,
    WSError,
> {
    if spec_masked(h) {
        if b.len() < off + 4 {
            Ok(None)
        } else {
            spec_read_body(
                b,
                h,
                len,
                off + 4,
                Some(be4val(b[off], b[off + 1], b[off + 2], b[off + 3])),
            )
        }
    } else {
        spec_read_body(b, h, len, off, None)
    }
}

/// What the octets at the head of `b` decode to: `Ok(None)` while the
/// frame is still incomplete, `Err(Protocol)` when the reserved high bit
/// of a 64-bit length is set, `Err(TooLarge)` when such a length exceeds
/// this machine's address space, and the decoded frame otherwise.
pub open spec fn spec_read_frame(b: Seq<u8>) -> Result<Option<DecodedFrame>, WSError> {
    if b.len() < 2 {
        Ok(None)
    } else {
        let h = be2val(b[0], b[1]);
        if spec_lencode(h) == WS_LEN16 {
            if b.len() < 4 {
                Ok(None)
            } else {
                spec_read_mask(b, h, be2val(b[2], b[3]) as nat, 4)
            }
        } else if spec_lencode(h) == WS_LEN64 {
            if b.len() < 10 {
                Ok(None)
            } else if b[2] & 0x80 != 0 {
                Err(WSError::Protocol)
            } else {
                let l = be8val(b[2], b[3], b[4], b[5], b[6], b[7], b[8], b[9]);
                if l > usize::MAX as u64 {
                    Err(WSError::TooLarge)
                } else {
                    spec_read_mask(b, h, l as nat, 10)
                }
            }
        } else {
            spec_read_mask(b, h, spec_lencode(h) as nat, 2)
        }
    }
}

/// Whether an executable decode result carries exactly what the decode
/// specification yields.
pub open spec fn read_result_matches(
    r: Result<Option<(WSMessage, usize)>, WSError>,
    s: Result<Option<DecodedFrame>, WSError>,
) -> bool {
    match r {
        Ok(None) => s == Ok::<Option<DecodedFrame>, WSError>(None),
        Ok(Some((m, used))) => match s {
            Ok(Some(d)) => m.header.bits == d.hdr && m.data@ == d.data && m.status == d.status
                && used as int == d.used,
            _ => false,
        },
        Err(e) => s == Err::<Option<DecodedFrame>, WSError>(e),
    }
}

/// Decodes the frame at the head of the buffer. `Ok(None)` asks for more
/// octets; otherwise the message and the count of octets consumed are
/// returned, or the error the decode specification names. The returned
/// header holds the first two wire octets unchanged: the mask flag stays
/// set on a masked frame even though the payload comes back unmasked, and
/// the length-code bits hold what the wire carried.
pub fn read_frame(buf: &[u8]) -> (r: Result<Option<(WSMessage, usize)>, WSError>)
    ensures
        read_result_matches(r, spec_read_frame(buf@)),
{
    let blen: usize = buf.len();
    if blen < 2 {
        return Ok(None);
    }
    let h: u16 = read_be2(buf, 0);
    let len: usize;
    let mut off: usize;
    if h & WS_LEN == WS_LEN16 {
        if blen < 4 {
            return Ok(None);
        }
        len = read_be2(buf, 2) as usize;
        off = 4;
    } else if h & WS_LEN == WS_LEN64 {
        if blen < 10 {
            return Ok(None);
        }
        let b2: u8 = *slice_index_get(buf, 2);
        if b2 & 0x80 != 0 {
            return Err(WSError::Protocol);
        }
        let l: u64 = read_be8(buf, 2);
        if l > usize::MAX as u64 {
            return Err(WSError::TooLarge);
        }
        len = l as usize;
        off = 10;
    } else {
        len = (h & WS_LEN) as usize;
        off = 2;
    }
    let key: Option<u32>;
    if h & WS_MASK == WS_MASK {
        if blen < off + 4 {
            return Ok(None);
        }
        key = Some(read_be4(buf, off));
        off = off + 4;
    } else {
        key = None;
    }
    if h & WS_OPCODE == WS_OPTERM && len >= 2 {
        if blen < off + 2 {
            return Ok(None);
        }
        let raw: u16 = read_be2(buf, off);
        let dlen: usize = len - 2;
        if blen - (off + 2) < dlen {
            return Ok(None);
        }
        let payload: &[u8] = slice_subrange(buf, off + 2, off + 2 + dlen);
        let sval: u16;
        let data: Vec<u8>;
        match key {
            Some(k) => {
                sval = raw ^ ((k >> 16) as u16);
                data = mask_data(payload, rotr16(k));
            },
            None => {
                sval = raw;
                data = slice_to_vec(payload);
            },
        }
        Ok(
            Some(
                (
                    WSMessage {
                        header: WSHeader { bits: h },
                        data,
                        status: WSStatusCode::from_u16(sval),
                    },
                    off + 2 + dlen,
                ),
            ),
        )
    } else {
        if blen - off < len {
            return Ok(None);
        }
        let payload: &[u8] = slice_subrange(buf, off, off + len);
        let data: Vec<u8> = match key {
            Some(k) => mask_data(payload, k),
            None => slice_to_vec(payload),
        };
        Ok(Some((WSMessage { header: WSHeader { bits: h }, data, status: None }, off + len)))
    }
}

} // verus!

use crate::message::spec_fin;
use crate::message::spec_rsv;
use crate::message::status_canonical;
use crate::message::WS_FIN;

verus! {

proof fn lemma_wire_header(h: u16, lc: u16)
    by (bit_vector)
    requires
        lc <= 127,
    ensures
        spec_fin((h & !(WS_MASK | WS_LEN)) | WS_MASK | lc) == spec_fin(h),
        spec_rsv((h & !(WS_MASK | WS_LEN)) | WS_MASK | lc) == spec_rsv(h),
        spec_opcode((h & !(WS_MASK | WS_LEN)) | WS_MASK | lc) == spec_opcode(h),
        spec_masked((h & !(WS_MASK | WS_LEN)) | WS_MASK | lc),
        spec_lencode((h & !(WS_MASK | WS_LEN)) | WS_MASK | lc) == lc,
{
}

/// Reading back a written frame recovers the message: FIN, the reserved
/// bits, the opcode, the payload and the status code all survive the
/// round trip (the header read from the wire additionally carries the mask
/// flag and the length code). A status code travels only on a close frame
/// and must convert to a number that resolves back to it; a close frame
/// without a status must announce fewer than two payload octets.
#[verifier::rlimit(100)]
#[verifier::spinoff_prover]
pub proof fn lemma_frame_round_trip(hdr: u16, data: Seq<u8>, status: Option<WSStatusCode>, key: u32)
    requires
        status matches Some(s) ==> spec_status_to(s) is Some && status_canonical(s),
        status is Some ==> spec_opcode(hdr) == WS_OPTERM,
        (status is None && spec_opcode(hdr) == WS_OPTERM) ==> data.len() < 2,
        data.len() + status_len(status) <= usize::MAX,
        data.len() + status_len(status) < 0x8000000000000000,
    ensures
        spec_read_frame(spec_write_frame(hdr, data, raw_status_of(status), key)) matches Ok(Some(d))
            && spec_fin(d.hdr) == spec_fin(hdr) && spec_rsv(d.hdr) == spec_rsv(hdr) && spec_opcode(
            d.hdr,
        ) == spec_opcode(hdr) && spec_masked(d.hdr) && d.data =~= data && d.status == status
            && d.used == spec_write_frame(hdr, data, raw_status_of(status), key).len(),
{
    let sraw = raw_status_of(status);
    let plen = data.len() + opt16_len(sraw);
    assert(opt16_len(sraw) == status_len(status));
    let lc = spec_lencode_of(plen);
    let h2 = (hdr & !(WS_MASK | WS_LEN)) | WS_MASK | lc;
    let extlen = spec_extlen(plen);
    let sb = spec_status_bytes(sraw, key);
    let pk = payload_key(sraw, key);
    let masked = mask_seq(pk, data);
    let b = spec_write_frame(hdr, data, sraw, key);
    assert(b == be2(h2) + extlen + be4(key) + sb + masked);
    assert(b.len() == 2 + extlen.len() + 4 + sb.len() + data.len());
    assert(lc <= 127);
    lemma_wire_header(hdr, lc);
    assert(b[0] == ((h2 >> 8) & 0xff) as u8);
    assert(b[1] == (h2 & 0xff) as u8);
    lemma_be2_roundtrip(h2);
    assert(be2val(b[0], b[1]) == h2);
    // The length field reads back as plen, and the parse moves past it.
    let off0: int = 2 + extlen.len() as int;
    if plen <= 125 {
        assert(spec_lencode(h2) == lc && lc != WS_LEN16 && lc != WS_LEN64);
        assert(lc as nat == plen);
        assert(spec_read_frame(b) == spec_read_mask(b, h2, plen, off0));
    } else if plen <= 65535 {
        assert(spec_lencode(h2) == WS_LEN16);
        assert(extlen == be2(plen as u16));
        assert(b[2] == (((plen as u16) >> 8) & 0xff) as u8);
        assert(b[3] == ((plen as u16) & 0xff) as u8);
        lemma_be2_roundtrip(plen as u16);
        assert(be2val(b[2], b[3]) == plen as u16);
        assert((plen as u16) as nat == plen);
        assert(spec_read_frame(b) == spec_read_mask(b, h2, plen, off0));
    } else {
        assert(spec_lencode(h2) == WS_LEN64);
        assert(extlen == be8(plen as u64));
        let p64 = plen as u64;
        assert(b[2] == ((p64 >> 56) & 0xff) as u8);
        assert(b[3] == ((p64 >> 48) & 0xff) as u8);
        assert(b[4] == ((p64 >> 40) & 0xff) as u8);
        assert(b[5] == ((p64 >> 32) & 0xff) as u8);
        assert(b[6] == ((p64 >> 24) & 0xff) as u8);
        assert(b[7] == ((p64 >> 16) & 0xff) as u8);
        assert(b[8] == ((p64 >> 8) & 0xff) as u8);
        assert(b[9] == (p64 & 0xff) as u8);
        lemma_be8_roundtrip(p64);
        assert(p64 < 0x8000000000000000);
        assert(b[2] & 0x80 == 0);
        assert(be8val(b[2], b[3], b[4], b[5], b[6], b[7], b[8], b[9]) == p64);
        assert(!(p64 > usize::MAX as u64));
        assert(p64 as nat == plen);
        assert(spec_read_frame(b) == spec_read_mask(b, h2, plen, off0));
    }
    // The mask key reads back.
    assert(spec_masked(h2));
    assert(b.len() >= off0 + 4);
    assert(b[off0] == ((key >> 24) & 0xff) as u8);
    assert(b[off0 + 1] == ((key >> 16) & 0xff) as u8);
    assert(b[off0 + 2] == ((key >> 8) & 0xff) as u8);
    assert(b[off0 + 3] == (key & 0xff) as u8);
    lemma_be4_roundtrip(key);
    assert(be4val(b[off0], b[off0 + 1], b[off0 + 2], b[off0 + 3]) == key);
    let off: int = off0 + 4;
    assert(spec_read_mask(b, h2, plen, off0) == spec_read_body(b, h2, plen, off, Some(key)));
    match status {
        Some(s) => {
            let sv = spec_status_to(s).unwrap();
            assert(sraw == Some(sv));
            assert(spec_opcode(h2) == WS_OPTERM && plen >= 2);
            assert(plen - 2 == data.len());
            assert(!(b.len() < off + 2 + (plen - 2)));
            assert(sb == be2(sv ^ spec_hi16(key)));
            assert(b[off] == (((sv ^ spec_hi16(key)) >> 8) & 0xff) as u8);
            assert(b[off + 1] == ((sv ^ spec_hi16(key)) & 0xff) as u8);
            lemma_be2_roundtrip(sv ^ spec_hi16(key));
            assert(be2val(b[off], b[off + 1]) == sv ^ spec_hi16(key));
            lemma_xor16_twice(sv, spec_hi16(key));
            assert((sv ^ spec_hi16(key)) ^ spec_hi16(key) == sv);
            assert(spec_status_from(sv) == Some(s));
            let payload = b.subrange(off + 2, off + 2 + (plen - 2));
            assert(payload =~= masked);
            assert(pk == spec_rotr16(key));
            lemma_mask_involution(spec_rotr16(key), data);
            assert(mask_seq(spec_rotr16(key), payload) =~= data);
            assert(off + 2 + (plen - 2) == b.len());
        },
        None => {
            assert(sraw is None);
            assert(!(spec_opcode(h2) == WS_OPTERM && plen >= 2));
            assert(plen == data.len());
            assert(!(b.len() < off + plen));
            let payload = b.subrange(off, off + plen);
            assert(payload =~= masked);
            assert(pk == key);
            lemma_mask_involution(key, data);
            assert(mask_seq(key, payload) =~= data);
            assert(off + plen == b.len());
        },
    }
}

/// Writing a close frame with a status and a payload and reading it back
/// yields a close message holding that status and that payload.
pub proof fn lemma_close_round_trip(s: WSStatusCode, payload: Seq<u8>, key: u32)
    requires
        spec_status_to(s) is Some,
        status_canonical(s),
        payload.len() + 2 <= usize::MAX,
        payload.len() + 2 < 0x8000000000000000,
    ensures
        spec_read_frame(
            spec_write_frame(WS_FIN | WS_OPTERM, payload, raw_status_of(Some(s)), key),
        ) matches Ok(Some(d)) && spec_opcode(d.hdr) == WS_OPTERM && spec_fin(d.hdr) && d.data
            =~= payload && d.status == Some(s),
{
    assert(spec_opcode(WS_FIN | WS_OPTERM) == WS_OPTERM && spec_fin(WS_FIN | WS_OPTERM))
        by (bit_vector);
    lemma_frame_round_trip(WS_FIN | WS_OPTERM, payload, Some(s), key);
}

/// An empty payload without a status encodes to a 2-octet frame plus the
/// 4-octet mask key a client send always carries.
pub proof fn lemma_empty_frame_len(hdr: u16, key: u32)
    ensures
        spec_write_frame(hdr, Seq::empty(), None, key).len() == 6,
{
}

} // verus!

verus! {

/// Relies on rand::random: a fresh 32-bit masking key from the
/// thread-local cryptographically secure generator.
#[verifier::external_body]
fn random_u32() -> u32 {
    rand::random::<u32>()
}

/// Encodes a message for sending, drawing a fresh random mask key; the
/// result is the exact frame for that message under some key.
pub fn encode_message(msg: &WSMessage) -> (r: Vec<u8>)
    requires
        msg.status matches Some(s) ==> spec_status_to(s) is Some,
        msg.status is Some ==> msg.data@.len() + 2 <= usize::MAX,
        msg.data@.len() + status_len(msg.status) < 0x8000000000000000,
    ensures
        exists|k: u32|
            r@ == spec_write_frame(msg.header.bits, msg.data@, raw_status_of(msg.status), k),
{
    let key = random_u32();
    let r = write_frame(msg, key);
    proof {
        assert(r@ == spec_write_frame(msg.header.bits, msg.data@, raw_status_of(msg.status), key));
    }
    r
}

} // verus!
