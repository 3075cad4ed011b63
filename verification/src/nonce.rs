//! The random handshake key and its server-accept transform.
use vstd::prelude::*;
use vstd::string::StrSliceExecFns;
use vstd::string::StringSliceAdditionalSpecFns;
use sha1::Digest;
use rustc_serialize::base64::ToBase64;

verus! {

/// The Base64 encoding (standard alphabet, padded, unwrapped) of a byte
/// sequence, as ASCII octets; a function of the bytes alone.
pub uninterp spec fn base64_of(b: Seq<u8>) -> Seq<u8>;

/// The SHA-1 digest of a byte sequence; a function of the bytes alone.
pub uninterp spec fn sha1_of(b: Seq<u8>) -> Seq<u8>;

/// Relies on rustc_serialize's `ToBase64` with the `STANDARD`
/// configuration: standard alphabet, padding, no line wrapping, so the
/// output holds four octets for every started group of three input octets
/// and depends on the input alone.
#[verifier::external_body]
fn base64_encode(data: &Vec<u8>) -> (r: Vec<u8>)
    ensures
        r@ == base64_of(data@),
        r@.len() == 4 * ((data@.len() + 2) / 3),
{
    data.as_slice().to_base64(rustc_serialize::base64::STANDARD).into_bytes()
}

/// Relies on the sha1 crate's `Digest::digest`: a 20-octet digest that
/// depends on the input octets alone.
#[verifier::external_body]
fn sha1_digest(data: &Vec<u8>) -> (r: Vec<u8>)
    ensures
        r@ == sha1_of(data@),
        r@.len() == 20,
{
    sha1::Sha1::digest(data.as_slice()).to_vec()
}

/// Relies on rand::random: ten octets drawn from the thread-local
/// cryptographically secure generator.
#[verifier::external_body]
fn random_bytes_10() -> (r: Vec<u8>)
    ensures
        r@.len() == 10,
{
    rand::random::<[u8; 10]>().to_vec()
}

/// The GUID that RFC 6455 fixes for the accept-key transform.
pub open spec fn guid_bytes() -> Seq<u8> {
    "258EAFA5-E914-47DA-95CA-C5AB0DC85B11".spec_bytes()
}

fn guid_vec() -> (r: Vec<u8>)
    ensures
        r@ == guid_bytes(),
{
    "258EAFA5-E914-47DA-95CA-C5AB0DC85B11".as_bytes_vec()
}

/// The client-chosen handshake key: a Base64 string held as its ASCII
/// octets. Fresh from `new`, or the accept form after `encode`.
#[derive(Debug)]
pub struct Nonce {
    key: Vec<u8>,
}

impl Nonce {
    /// The ASCII octets of the key.
    pub closed spec fn bytes(&self) -> Seq<u8> {
        self.key@
    }

    /// A fresh nonce: ten random octets, Base64-encoded into sixteen
    /// ASCII characters.
    pub fn new() -> (r: Nonce)
        ensures
            r.bytes().len() == 16,
            exists|b: Seq<u8>| b.len() == 10 && r.bytes() == base64_of(b),
    {
        let raw = random_bytes_10();
        let key = base64_encode(&raw);
        proof {
            assert(raw@.len() == 10 && key@ == base64_of(raw@));
        }
        Nonce { key }
    }

    /// A nonce holding the given ASCII octets.
    pub fn from_bytes(key: Vec<u8>) -> (r: Nonce)
        ensures
            r.bytes() == key@,
    {
        Nonce { key }
    }

    /// The ASCII octets of the key, for sending or comparing.
    pub fn as_bytes(&self) -> (r: &Vec<u8>)
        ensures
            r@ == self.bytes(),
    {
        &self.key
    }

    /// The accept transform: the Base64 encoding of the SHA-1 digest of
    /// this key's ASCII octets followed by the RFC 6455 GUID. Equality
    /// with the `Sec-WebSocket-Accept` value is the server acceptance
    /// check.
    pub fn encode(self) -> (r: Nonce)
        ensures
            r.bytes() == base64_of(sha1_of(self.bytes() + guid_bytes())),
    {
        let mut input = self.key;
        let mut guid = guid_vec();
        input.append(&mut guid);
        let digest = sha1_digest(&input);
        Nonce { key: base64_encode(&digest) }
    }
}

} // verus!
