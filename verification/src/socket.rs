//! The opening handshake and the defragmenting reader.
use vstd::prelude::*;

use crate::message::frag_of;
use crate::message::frag_matches;
use crate::message::frags;
use crate::message::lemma_header_ops;
use crate::message::spec_fin;
use crate::message::spec_is_first;
use crate::message::spec_is_last;
use crate::message::spec_is_more;
use crate::message::spec_is_whole;
use crate::message::spec_opcode;
use crate::message::status_len;
use crate::message::FragSpec;
use crate::message::WSHeader;
use crate::message::WSMessage;
use crate::message::WSStatusCode;
use crate::message::WS_FIN;
use crate::message::WS_OPCODE;
use crate::message::WS_OPCONT;

verus! {

/// The defragmenter's buffer when nothing is under reassembly.
pub open spec fn empty_frag() -> FragSpec {
    FragSpec { hdr: 0, data: Seq::empty(), status: None }
}

/// One defragmentation step: a whole message passes through (control
/// frames arrive whole, so they pass even mid-reassembly); a first
/// fragment replaces the buffer; a middle fragment appends its payload; a
/// last fragment appends and releases the buffer with FIN set.
pub open spec fn spec_feed(buf: FragSpec, m: FragSpec) -> (FragSpec, Option<FragSpec>) {
    if spec_is_whole(m.hdr) {
        (buf, Some(m))
    } else if spec_is_first(m.hdr) {
        (m, None)
    } else if spec_is_more(m.hdr) {
        (FragSpec { hdr: buf.hdr, data: buf.data + m.data, status: buf.status }, None)
    } else {
        (
            empty_frag(),
            Some(FragSpec { hdr: buf.hdr | WS_FIN, data: buf.data + m.data, status: buf.status }),
        )
    }
}

/// The buffer state and the emitted messages after feeding a fragment
/// sequence through the defragmenter.
pub open spec fn spec_defrag_outputs(buf: FragSpec, ms: Seq<FragSpec>) -> (FragSpec, Seq<FragSpec>)
    decreases ms.len(),
{
    if ms.len() == 0 {
        (buf, Seq::empty())
    } else {
        let step = spec_feed(buf, ms[0]);
        let rest = spec_defrag_outputs(step.0, ms.drop_first());
        (
            rest.0,
            match step.1 {
                Some(o) => seq![o] + rest.1,
                None => rest.1,
            },
        )
    }
}

/// A stateful wrapper reassembling fragmented messages; whole messages,
/// control frames included, pass through unchanged.
pub struct WSDefragMessages {
    pub buffer: WSMessage,
}

impl WSDefragMessages {
    /// A defragmenter with an empty buffer.
    pub fn new() -> (r: WSDefragMessages)
        ensures
            frag_of(r.buffer) == empty_frag(),
    {
        let r = WSDefragMessages {
            buffer: WSMessage { header: WSHeader { bits: 0 }, data: Vec::new(), status: None },
        };
        proof {
            assert(frag_of(r.buffer).data =~= empty_frag().data);
        }
        r
    }

    /// Feeds one received message through, returning the whole message it
    /// completes, if any.
    pub fn feed(&mut self, msg: WSMessage) -> (r: Option<WSMessage>)
        ensures
            frag_of(final(self).buffer) == spec_feed(
                frag_of(old(self).buffer),
                frag_of(msg),
            ).0,
            match r {
                Some(m) => spec_feed(frag_of(old(self).buffer), frag_of(msg)).1 matches Some(o)
                    && frag_matches(m, o),
                None => spec_feed(frag_of(old(self).buffer), frag_of(msg)).1 is None,
            },
    {
        if msg.is_whole() {
            Some(msg)
        } else if msg.is_first() {
            self.buffer = msg;
            None
        } else if msg.is_more() {
            self.buffer.push(msg);
            None
        } else {
            self.buffer.push(msg);
            let mut out = WSMessage {
                header: WSHeader { bits: 0 },
                data: Vec::new(),
                status: None,
            };
            core::mem::swap(&mut out, &mut self.buffer);
            out.header.insert(WS_FIN);
            proof {
                assert(frag_of(self.buffer).data =~= empty_frag().data);
            }
            Some(out)
        }
    }

    /// Releases a non-empty buffer once, at end of stream, unchanged.
    pub fn flush(&mut self) -> (r: Option<WSMessage>)
        ensures
            old(self).buffer.data@.len() == 0 ==> r is None && *final(self) == *old(self),
            old(self).buffer.data@.len() > 0 ==> (r matches Some(m) && m == old(self).buffer
                && frag_of(final(self).buffer) == empty_frag()),
    {
        if self.buffer.data.len() == 0 {
            None
        } else {
            let mut out = WSMessage {
                header: WSHeader { bits: 0 },
                data: Vec::new(),
                status: None,
            };
            core::mem::swap(&mut out, &mut self.buffer);
            proof {
                assert(frag_of(self.buffer).data =~= empty_frag().data);
            }
            Some(out)
        }
    }
}

proof fn lemma_defrag_tail(acc: FragSpec, hdr: u16, data: Seq<u8>, max: nat, pos: nat, size: nat)
    requires
        max >= 1,
        pos <= data.len(),
        size == data.len() - pos,
        size > 0,
        !spec_fin(hdr),
        spec_opcode(hdr) == WS_OPCONT,
    ensures
        spec_defrag_outputs(acc, frags(hdr, data, None, max, pos, size)).0 == empty_frag(),
        spec_defrag_outputs(acc, frags(hdr, data, None, max, pos, size)).1 =~= seq![
            FragSpec {
                hdr: acc.hdr | WS_FIN,
                data: acc.data + data.subrange(pos as int, data.len() as int),
                status: acc.status,
            },
        ],
    decreases size,
{
    lemma_header_ops(hdr);
    let fs = frags(hdr, data, None, max, pos, size);
    if size <= max {
        let x = FragSpec {
            hdr: hdr | WS_FIN,
            data: data.subrange(pos as int, data.len() as int),
            status: None,
        };
        assert(fs =~= seq![x]);
        assert(fs[0] == x);
        assert(spec_is_last(x.hdr));
        assert(fs.drop_first() =~= Seq::<FragSpec>::empty());
        let o = FragSpec { hdr: acc.hdr | WS_FIN, data: acc.data + x.data, status: acc.status };
        assert(spec_feed(acc, x) == (empty_frag(), Some(o)));
        assert(spec_defrag_outputs(empty_frag(), Seq::<FragSpec>::empty()).0 == empty_frag());
        assert(spec_defrag_outputs(empty_frag(), Seq::<FragSpec>::empty()).1 =~= Seq::<FragSpec>::empty());
        assert(spec_defrag_outputs(acc, fs).0 == empty_frag());
        assert(spec_defrag_outputs(acc, fs).1 =~= seq![o]);
    } else {
        let newpos: nat = if pos == 0 {
            max
        } else {
            (pos + max) as nat
        };
        let x = FragSpec {
            hdr: hdr,
            data: data.subrange(pos as int, newpos as int),
            status: None,
        };
        if pos == 0 {
            assert(hdr & !WS_FIN == hdr);
            assert(hdr & !(WS_FIN | WS_OPCODE) == hdr);
        }
        let rest = frags(hdr, data, None, max, newpos, (size - max) as nat);
        assert(fs =~= seq![x] + rest);
        assert(fs[0] == x);
        assert(spec_is_more(x.hdr));
        let acc2 = FragSpec { hdr: acc.hdr, data: acc.data + x.data, status: acc.status };
        assert(spec_feed(acc, x) == (acc2, None::<FragSpec>));
        lemma_defrag_tail(acc2, hdr, data, max, newpos, (size - max) as nat);
        assert(fs.drop_first() =~= rest);
        assert(acc2.data + data.subrange(newpos as int, data.len() as int) =~= acc.data
            + data.subrange(pos as int, data.len() as int));
    }
}

/// Feeding the defragmenter the exact fragment sequence of one whole
/// message, split under any cap, emits exactly that message and leaves
/// the buffer empty.
pub proof fn lemma_defrag_recovers(hdr: u16, data: Seq<u8>, status: Option<WSStatusCode>, n: nat)
    requires
        n >= 1,
        status is Some ==> n >= 2,
        spec_fin(hdr),
        spec_opcode(hdr) != WS_OPCONT,
    ensures
        spec_defrag_outputs(
            empty_frag(),
            frags(hdr, data, status, n, 0, data.len() + status_len(status)),
        ).0 == empty_frag(),
        spec_defrag_outputs(
            empty_frag(),
            frags(hdr, data, status, n, 0, data.len() + status_len(status)),
        ).1 =~= seq![FragSpec { hdr, data, status }],
{
    lemma_header_ops(hdr);
    let size: nat = data.len() + status_len(status);
    let fs = frags(hdr, data, status, n, 0, size);
    if size <= n {
        let x = FragSpec {
            hdr: hdr | WS_FIN,
            data: data.subrange(0, data.len() as int),
            status,
        };
        assert(fs =~= seq![x]);
        assert(fs[0] == x);
        assert(hdr | WS_FIN == hdr);
        assert(x.data =~= data);
        assert(spec_is_whole(x.hdr));
        assert(fs.drop_first() =~= Seq::<FragSpec>::empty());
        assert(spec_feed(empty_frag(), x) == (empty_frag(), Some(x)));
        assert(spec_defrag_outputs(empty_frag(), Seq::<FragSpec>::empty()).0 == empty_frag());
        assert(spec_defrag_outputs(empty_frag(), Seq::<FragSpec>::empty()).1 =~= Seq::<FragSpec>::empty());
        assert(spec_defrag_outputs(empty_frag(), fs).0 == empty_frag());
        assert(spec_defrag_outputs(empty_frag(), fs).1 =~= seq![x]);
        assert(x == FragSpec { hdr, data, status });
    } else {
        let firstlen: nat = (n - status_len(status)) as nat;
        let x = FragSpec { hdr: hdr & !WS_FIN, data: data.subrange(0, firstlen as int), status };
        let hdr2 = hdr & !(WS_FIN | WS_OPCODE);
        let rest = frags(hdr2, data, None, n, firstlen, (size - n) as nat);
        assert(fs =~= seq![x] + rest);
        assert(fs[0] == x);
        assert(spec_is_first(x.hdr));
        assert(spec_feed(empty_frag(), x) == (x, None::<FragSpec>));
        lemma_header_ops(hdr2);
        lemma_defrag_tail(x, hdr2, data, n, firstlen, (size - n) as nat);
        assert(fs.drop_first() =~= rest);
        assert((hdr & !WS_FIN) | WS_FIN == hdr);
        assert(x.data + data.subrange(firstlen as int, data.len() as int) =~= data);
    }
}

} // verus!

use crate::bytes::all_digits;
use crate::bytes::find_byte;
use crate::bytes::find_byte_exec;
use crate::bytes::parse_dec_u16;
use crate::bytes::spec_dec;
use crate::bytes::spec_dec_val;
use crate::bytes::spec_trim;
use crate::bytes::trim;
use crate::bytes::u64_to_dec;
use crate::bytes::vec_range;
use crate::nonce::Nonce;
use crate::WSError;
use vstd::string::StrSliceExecFns;
use vstd::string::StringSliceAdditionalSpecFns;

verus! {

/// A parsed WebSocket URL: the TLS flag of its scheme, the host, the
/// resolved port (with whether the URL spelled it out), and the path.
pub struct WsUrl {
    pub secure: bool,
    pub host: Vec<u8>,
    pub port: u16,
    pub port_explicit: bool,
    pub path: Vec<u8>,
}

impl WsUrl {
    /// A URL from its parts; a missing port defaults to 443 under TLS and
    /// 80 without.
    pub fn new(secure: bool, host: Vec<u8>, port: Option<u16>, path: Vec<u8>) -> (r: WsUrl)
        ensures
            r.secure == secure,
            r.host@ == host@,
            r.path@ == path@,
            r.port_explicit == (port is Some),
            r.port == match port {
                Some(p) => p,
                None => if secure {
                    443u16
                } else {
                    80u16
                },
            },
    {
        let p: u16 = match port {
            Some(p) => p,
            None => if secure {
                443
            } else {
                80
            },
        };
        WsUrl { secure, host, port: p, port_explicit: port.is_some(), path }
    }
}

/// The sequences each vector in a list views to.
pub open spec fn views_of(v: Seq<Vec<u8>>) -> Seq<Seq<u8>> {
    v.map_values(|x: Vec<u8>| x@)
}

/// The items joined with a comma and a space between neighbours, first
/// `k` items only.
pub open spec fn spec_join_upto(items: Seq<Seq<u8>>, k: int) -> Seq<u8>
    decreases k,
{
    if k <= 0 {
        Seq::empty()
    } else if k == 1 {
        items[0]
    } else {
        spec_join_upto(items, k - 1) + ", ".spec_bytes() + items[k - 1]
    }
}

/// The items joined with a comma and a space between neighbours.
pub open spec fn spec_join_comma(items: Seq<Seq<u8>>) -> Seq<u8> {
    spec_join_upto(items, items.len() as int)
}

fn push_vec(out: &mut Vec<u8>, v: &Vec<u8>)
    ensures
        final(out)@ == old(out)@ + v@,
{
    let mut i: usize = 0;
    while i < v.len()
        invariant
            i <= v@.len(),
            out@ == old(out)@ + v@.subrange(0, i as int),
        decreases v@.len() - i,
    {
        out.push(v[i]);
        proof {
            assert(old(out)@ + v@.subrange(0, i as int + 1) =~= (old(out)@ + v@.subrange(
                0,
                i as int,
            )).push(v@[i as int]));
        }
        i = i + 1;
    }
    proof {
        assert(v@.subrange(0, v@.len() as int) =~= v@);
    }
}

fn push_str(out: &mut Vec<u8>, s: &str)
    ensures
        final(out)@ == old(out)@ + s.spec_bytes(),
{
    let mut t = s.as_bytes_vec();
    out.append(&mut t);
}

fn join_comma(items: &Vec<Vec<u8>>) -> (r: Vec<u8>)
    ensures
        r@ == spec_join_comma(views_of(items@)),
{
    let mut out: Vec<u8> = Vec::new();
    let mut i: usize = 0;
    while i < items.len()
        invariant
            i <= items@.len(),
            out@ == spec_join_upto(views_of(items@), i as int),
        decreases items@.len() - i,
    {
        if i > 0 {
            push_str(&mut out, ", ");
        }
        push_vec(&mut out, &items[i]);
        proof {
            assert(views_of(items@)[i as int] == items@[i as int]@);
            assert(out@ =~= spec_join_upto(views_of(items@), i as int + 1));
        }
        i = i + 1;
    }
    out
}

/// A client socket: its URL, protocol version, and the optional
/// subprotocol and extension token lists offered in the handshake.
pub struct WebSocket {
    pub url: WsUrl,
    pub version: u64,
    pub protocols: Option<Vec<Vec<u8>>>,
    pub extensions: Option<Vec<Vec<u8>>>,
}

/// The `Origin` header value: scheme, host, and the port when the URL
/// spelled one out.
pub open spec fn spec_origin(url: &WsUrl) -> Seq<u8> {
    (if url.secure {
        "wss".spec_bytes()
    } else {
        "ws".spec_bytes()
    }) + "://".spec_bytes() + url.host@ + (if url.port_explicit {
        seq![58u8] + spec_dec(url.port as nat)
    } else {
        Seq::empty()
    })
}

/// The request path: the URL's own, or a lone slash when it has none.
pub open spec fn spec_path_or_slash(path: Seq<u8>) -> Seq<u8> {
    if path.len() == 0 {
        "/".spec_bytes()
    } else {
        path
    }
}

/// The exact octets of the HTTP/1.1 upgrade request for this socket and
/// handshake key: request line, `Host`, `Origin`, `Sec-WebSocket-Key`,
/// `Upgrade`, `Connection`, `Sec-WebSocket-Version`, the two optional
/// token-list headers, and the blank line.
pub open spec fn spec_handshake_request(ws: &WebSocket, key: Seq<u8>) -> Seq<u8> {
    "GET ".spec_bytes() + spec_path_or_slash(ws.url.path@) + " HTTP/1.1\r\nHost: ".spec_bytes()
        + ws.url.host@ + "\r\nOrigin: ".spec_bytes() + spec_origin(&ws.url)
        + "\r\nSec-WebSocket-Key: ".spec_bytes() + key
        + "\r\nUpgrade: websocket\r\nConnection: Upgrade\r\nSec-WebSocket-Version: ".spec_bytes()
        + spec_dec(ws.version as nat) + "\r\n".spec_bytes() + (match ws.protocols {
        Some(ps) => "Sec-WebSocket-Protocol: ".spec_bytes() + spec_join_comma(views_of(ps@))
            + "\r\n".spec_bytes(),
        None => Seq::empty(),
    }) + (match ws.extensions {
        Some(es) => "Sec-WebSocket-Extensions: ".spec_bytes() + spec_join_comma(views_of(es@))
            + "\r\n".spec_bytes(),
        None => Seq::empty(),
    }) + "\r\n".spec_bytes()
}

impl WebSocket {
    /// A socket for the URL with a version and optional subprotocol and
    /// extension token lists.
    pub fn with_options(
        url: WsUrl,
        version: u64,
        protocols: Option<Vec<Vec<u8>>>,
        extensions: Option<Vec<Vec<u8>>>,
    ) -> (r: WebSocket)
        ensures
            r.url == url,
            r.version == version,
            r.protocols == protocols,
            r.extensions == extensions,
    {
        WebSocket { url, version, protocols, extensions }
    }

    /// A socket with the default options.
    pub fn new(url: WsUrl) -> (r: WebSocket)
        ensures
            r.url == url,
            r.version == 1,
            r.protocols is None,
            r.extensions is None,
    {
        WebSocket::with_options(url, 1, None, None)
    }

    /// The `host:port` string the transport connects to, as octets.
    pub fn hostname(&self) -> (r: Vec<u8>)
        ensures
            r@ == self.url.host@ + seq![58u8] + spec_dec(self.url.port as nat),
    {
        let mut out: Vec<u8> = Vec::new();
        push_vec(&mut out, &self.url.host);
        out.push(58);
        let mut d = u64_to_dec(self.url.port as u64);
        out.append(&mut d);
        proof {
            assert(out@ =~= self.url.host@ + seq![58u8] + spec_dec(self.url.port as nat));
        }
        out
    }

    /// Whether the transport must run over TLS.
    pub fn use_ssl(&self) -> (r: bool)
        ensures
            r == self.url.secure,
    {
        self.url.secure
    }

    /// The upgrade request to write before reading the response.
    #[verifier::rlimit(100)]
    #[verifier::spinoff_prover]
    pub fn handshake_request(&self, nonce: &Nonce) -> (r: Vec<u8>)
        ensures
            r@ == spec_handshake_request(self, nonce.bytes()),
    {
        let mut out: Vec<u8> = Vec::new();
        push_str(&mut out, "GET ");
        if self.url.path.len() == 0 {
            push_str(&mut out, "/");
        } else {
            push_vec(&mut out, &self.url.path);
        }
        push_str(&mut out, " HTTP/1.1\r\nHost: ");
        push_vec(&mut out, &self.url.host);
        push_str(&mut out, "\r\nOrigin: ");
        if self.url.secure {
            push_str(&mut out, "wss");
        } else {
            push_str(&mut out, "ws");
        }
        push_str(&mut out, "://");
        push_vec(&mut out, &self.url.host);
        if self.url.port_explicit {
            out.push(58);
            let mut d = u64_to_dec(self.url.port as u64);
            out.append(&mut d);
        }
        push_str(&mut out, "\r\nSec-WebSocket-Key: ");
        push_vec(&mut out, nonce.as_bytes());
        push_str(
            &mut out,
            "\r\nUpgrade: websocket\r\nConnection: Upgrade\r\nSec-WebSocket-Version: ",
        );
        let mut v = u64_to_dec(self.version);
        out.append(&mut v);
        push_str(&mut out, "\r\n");
        match &self.protocols {
            Some(ps) => {
                push_str(&mut out, "Sec-WebSocket-Protocol: ");
                let mut j = join_comma(ps);
                out.append(&mut j);
                push_str(&mut out, "\r\n");
            },
            None => {},
        }
        match &self.extensions {
            Some(es) => {
                push_str(&mut out, "Sec-WebSocket-Extensions: ");
                let mut j = join_comma(es);
                out.append(&mut j);
                push_str(&mut out, "\r\n");
            },
            None => {},
        }
        push_str(&mut out, "\r\n");
        proof {
            assert(out@ =~= spec_handshake_request(self, nonce.bytes()));
        }
        out
    }
}

} // verus!

verus! {

fn bytes_eq(a: &Vec<u8>, b: &Vec<u8>) -> (r: bool)
    ensures
        r == (a@ == b@),
{
    if a.len() != b.len() {
        return false;
    }
    let mut i: usize = 0;
    while i < a.len()
        invariant
            i <= a@.len(),
            a@.len() == b@.len(),
            forall|j: int| 0 <= j < i ==> a@[j] == b@[j],
        decreases a@.len() - i,
    {
        if a[i] != b[i] {
            return false;
        }
        i = i + 1;
    }
    proof {
        assert(a@ =~= b@);
    }
    true
}

/// The token between the first space of a status line and the next space
/// or the line's end: where HTTP/1.1 puts the status code.
pub open spec fn spec_status_token(line: Seq<u8>) -> Option<Seq<u8>> {
    match find_byte(line, 32, 0) {
        None => None,
        Some(i) => match find_byte(line, 32, i + 1) {
            None => Some(line.subrange(i + 1, line.len() as int)),
            Some(j) => Some(line.subrange(i + 1, j)),
        },
    }
}

/// The status code of a response status line: the token after the first
/// space read as a decimal number, when it is one and fits 16 bits.
pub open spec fn spec_status_code(line: Seq<u8>) -> Option<u16> {
    match spec_status_token(line) {
        None => None,
        Some(t) => if t.len() >= 1 && all_digits(t) && spec_dec_val(t) <= 65535 {
            Some(spec_dec_val(t) as u16)
        } else {
            None
        },
    }
}

/// Reads the status code out of a response status line.
pub fn parse_status_line(line: &Vec<u8>) -> (r: Option<u16>)
    ensures
        r == spec_status_code(line@),
{
    let llen: usize = line.len();
    match find_byte_exec(line, 32, 0) {
        None => None,
        Some(i) => {
            proof {
                assert(i < llen);
            }
            let end: usize = match find_byte_exec(line, 32, i + 1) {
                Some(j) => j,
                None => line.len(),
            };
            let token = vec_range(line, i + 1, end);
            parse_dec_u16(&token)
        },
    }
}

/// A header line split at its first colon, both parts trimmed; `None`
/// when the line has no colon.
pub open spec fn spec_header_parts(line: Seq<u8>) -> Option<(Seq<u8>, Seq<u8>)> {
    match find_byte(line, 58, 0) {
        None => None,
        Some(c) => Some(
            (spec_trim(line.subrange(0, c)), spec_trim(line.subrange(c + 1, line.len() as int))),
        ),
    }
}

/// Splits a header line on its first colon and trims both parts.
pub fn split_header_line(line: &Vec<u8>) -> (r: Option<(Vec<u8>, Vec<u8>)>)
    ensures
        match r {
            Some(p) => spec_header_parts(line@) == Some((p.0@, p.1@)),
            None => spec_header_parts(line@) is None,
        },
{
    match find_byte_exec(line, 58, 0) {
        None => None,
        Some(c) => {
            let llen: usize = line.len();
            proof {
                assert(c < llen);
            }
            let rawname = vec_range(line, 0, c);
            let rawvalue = vec_range(line, c + 1, llen);
            Some((trim(&rawname), trim(&rawvalue)))
        },
    }
}

/// The trimmed value of the last header line whose trimmed name is
/// exactly `Sec-WebSocket-Accept`; lines without a colon are passed over.
pub open spec fn spec_accept_value(lines: Seq<Seq<u8>>) -> Option<Seq<u8>>
    decreases lines.len(),
{
    if lines.len() == 0 {
        None
    } else {
        match spec_header_parts(lines.last()) {
            Some(p) => if p.0 == "Sec-WebSocket-Accept".spec_bytes() {
                Some(p.1)
            } else {
                spec_accept_value(lines.drop_last())
            },
            None => spec_accept_value(lines.drop_last()),
        }
    }
}

/// Whether a handshake response accepts: status 101 and an accept header
/// equal to the encoded nonce.
pub open spec fn spec_response_ok(status_line: Seq<u8>, headers: Seq<Seq<u8>>, key: Seq<u8>) -> bool {
    spec_status_code(status_line) == Some(101u16) && spec_accept_value(headers) == Some(key)
}

/// Validates the server's handshake response against the encoded nonce:
/// the status line must carry 101 and the `Sec-WebSocket-Accept` header
/// must equal the nonce; anything else is `InvalidInput`.
pub fn validate_response(status_line: &Vec<u8>, headers: &Vec<Vec<u8>>, nonce: &Nonce) -> (r:
    Result<(), WSError>)
    ensures
        r is Ok <==> spec_response_ok(status_line@, views_of(headers@), nonce.bytes()),
        r matches Err(e) ==> e == WSError::InvalidInput,
{
    let status = parse_status_line(status_line);
    let ok101: bool = match status {
        Some(v) => v == 101,
        None => false,
    };
    if !ok101 {
        return Err(WSError::InvalidInput);
    }
    proof {
        assert(status == Some(101u16));
        assert(spec_status_code(status_line@) == Some(101u16));
    }
    let accept_name = "Sec-WebSocket-Accept".as_bytes_vec();
    let mut i: usize = headers.len();
    proof {
        assert(views_of(headers@).subrange(0, headers@.len() as int) =~= views_of(headers@));
    }
    while i > 0
        invariant
            i <= headers@.len(),
            spec_status_code(status_line@) == Some(101u16),
            accept_name@ == "Sec-WebSocket-Accept".spec_bytes(),
            spec_accept_value(views_of(headers@)) == spec_accept_value(
                views_of(headers@).subrange(0, i as int),
            ),
        decreases i,
    {
        i = i - 1;
        proof {
            assert(views_of(headers@).subrange(0, i as int + 1).last() == headers@[i as int]@);
            assert(views_of(headers@).subrange(0, i as int + 1).drop_last() =~= views_of(
                headers@,
            ).subrange(0, i as int));
        }
        match split_header_line(&headers[i]) {
            Some(p) => {
                let (name, value) = p;
                if bytes_eq(&name, &accept_name) {
                    proof {
                        assert(spec_accept_value(views_of(headers@).subrange(0, i as int + 1))
                            == Some(value@));
                    }
                    if bytes_eq(&value, nonce.as_bytes()) {
                        return Ok(());
                    } else {
                        return Err(WSError::InvalidInput);
                    }
                }
            },
            None => {},
        }
    }
    proof {
        assert(views_of(headers@).subrange(0, 0) =~= Seq::<Seq<u8>>::empty());
    }
    Err(WSError::InvalidInput)
}

} // verus!
