//! The request/response codec for the gateway's line-oriented JSON protocol.
//!
//! One frame is one JSON object in UTF-8 text. A request frame is decoded by
//! [`parse_request`] against the request grammar written out below as spec
//! functions over the frame's bytes: an object carrying a `type` tag of
//! `connect` or `read` and exactly the members of that variant, in any order,
//! with JSON whitespace and the JSON string escapes, `\uXXXX` and surrogate
//! pairs included. The schema is closed on purpose: a member outside the
//! variant's schema, or one seen twice, rejects the request rather than being
//! silently ignored, so what a frame means is exactly what it says. A response
//! frame is produced by [`encode_response`]: the object's text followed by the
//! line-feed delimiter, with `message` strings escaped and the opaque,
//! already-serialized `values` payloads spliced through unchanged.

use vstd::prelude::*;
use vstd::string::StringSliceAdditionalSpecFns;
use vstd::utf8::{decode_utf8, encode_scalar, encode_utf8, valid_utf8};

use crate::handler::{ReqV, Request, RespV, Response};

verus! {

/// Why a frame was rejected: not UTF-8 text at all, or text that does not
/// match the request grammar.
#[derive(Debug, Clone, Copy, PartialEq, Eq, Structural)]
pub enum DecodeError {
    InvalidEncoding,
    InvalidSchema,
}

/// Relies on String::from_utf8: it succeeds exactly on valid UTF-8 input, and
/// the resulting string holds the characters those bytes encode.
#[verifier::external_body]
fn string_from_bytes(v: Vec<u8>) -> (r: Option<String>)
    ensures
        (r is Some) <==> valid_utf8(v@),
        r matches Some(s) ==> s@ == decode_utf8(v@),
{
    String::from_utf8(v).ok()
}

// ---------------------------------------------------------------------------
// Response encoding
// ---------------------------------------------------------------------------
/// The hexadecimal digit for `d`, lower case.
pub open spec fn hex_char(d: u8) -> u8 {
    if d < 10 {
        (0x30 + d) as u8
    } else {
        (0x57 + d) as u8
    }
}

/// The JSON string encoding of one byte of UTF-8 text: quote, backslash and
/// the named control characters get their two-character escapes, the other
/// control bytes a `\u00..` escape, everything else passes through.
pub open spec fn esc_byte(b: u8) -> Seq<u8> {
    if b == 0x22 {
        seq![0x5cu8, 0x22]
    } else if b == 0x5c {
        seq![0x5cu8, 0x5c]
    } else if b == 0x08 {
        seq![0x5cu8, 0x62]
    } else if b == 0x0c {
        seq![0x5cu8, 0x66]
    } else if b == 0x0a {
        seq![0x5cu8, 0x6e]
    } else if b == 0x0d {
        seq![0x5cu8, 0x72]
    } else if b == 0x09 {
        seq![0x5cu8, 0x74]
    } else if b < 0x20 {
        seq![0x5cu8, 0x75, 0x30, 0x30, hex_char(b / 16), hex_char(b % 16)]
    } else {
        seq![b]
    }
}

/// JSON string escaping of a whole byte sequence.
pub open spec fn esc_bytes(s: Seq<u8>) -> Seq<u8>
    decreases s.len(),
{
    if s.len() == 0 {
        Seq::empty()
    } else {
        esc_bytes(s.drop_last()) + esc_byte(s.last())
    }
}

/// The comma-joined splice of the opaque value payloads, each already JSON
/// text of its own and reproduced byte for byte.
pub open spec fn join_values(vs: Seq<Seq<char>>) -> Seq<u8>
    decreases vs.len(),
{
    if vs.len() == 0 {
        Seq::empty()
    } else if vs.len() == 1 {
        encode_utf8(vs[0])
    } else {
        join_values(vs.drop_last()) + seq![0x2cu8] + encode_utf8(vs.last())
    }
}

/// The exact bytes of a response frame's JSON object, before the delimiter.
pub open spec fn enc_response(r: RespV) -> Seq<u8> {
    match r {
        RespV::ConnectOk => "{\"type\":\"connect_ok\"}".spec_bytes(),
        RespV::Error { message } => "{\"type\":\"error\",\"message\":\"".spec_bytes() + esc_bytes(
            encode_utf8(message),
        ) + "\"}".spec_bytes(),
        RespV::ReadOk { values } => "{\"type\":\"read_ok\",\"values\":[".spec_bytes()
            + join_values(values) + "]}".spec_bytes(),
    }
}

fn hex_char_exec(d: u8) -> (r: u8)
    requires
        d < 16,
    ensures
        r == hex_char(d),
{
    if d < 10 {
        0x30 + d
    } else {
        0x57 + d
    }
}

fn push_str_bytes(out: &mut Vec<u8>, s: &str)
    ensures
        final(out)@ == old(out)@ + s.spec_bytes(),
{
    out.extend_from_slice(s.as_bytes());
}

fn push_escaped(out: &mut Vec<u8>, s: &str)
    ensures
        final(out)@ == old(out)@ + esc_bytes(s.spec_bytes()),
{
    let ghost base = out@;
    let bytes = s.as_bytes();
    let n = bytes.len();
    let mut i: usize = 0;
    while i < n
        invariant
            0 <= i <= n == bytes@.len(),
            bytes@ == s.spec_bytes(),
            out@ == base + esc_bytes(bytes@.take(i as int)),
        decreases n - i,
    {
        let b = bytes[i];
        if b == 0x22 {
            out.push(0x5c);
            out.push(0x22);
        } else if b == 0x5c {
            out.push(0x5c);
            out.push(0x5c);
        } else if b == 0x08 {
            out.push(0x5c);
            out.push(0x62);
        } else if b == 0x0c {
            out.push(0x5c);
            out.push(0x66);
        } else if b == 0x0a {
            out.push(0x5c);
            out.push(0x6e);
        } else if b == 0x0d {
            out.push(0x5c);
            out.push(0x72);
        } else if b == 0x09 {
            out.push(0x5c);
            out.push(0x74);
        } else if b < 0x20 {
            out.push(0x5c);
            out.push(0x75);
            out.push(0x30);
            out.push(0x30);
            out.push(hex_char_exec(b / 16));
            out.push(hex_char_exec(b % 16));
        } else {
            out.push(b);
        }
        proof {
            assert(bytes@.take(i as int + 1).drop_last() =~= bytes@.take(i as int));
            assert(bytes@.take(i as int + 1).last() == b);
            assert(out@ =~= base + esc_bytes(bytes@.take(i as int + 1)));
        }
        i = i + 1;
    }
    proof {
        assert(bytes@.take(n as int) =~= bytes@);
    }
}

/// Encodes one response as its frame: the JSON object's UTF-8 text followed
/// by the line-feed delimiter.
pub fn encode_response(r: &Response) -> (out: Vec<u8>)
    ensures
        out@ == enc_response(r@) + seq![0x0au8],
{
    let mut out: Vec<u8> = Vec::new();
    match r {
        Response::ConnectOk => {
            push_str_bytes(&mut out, "{\"type\":\"connect_ok\"}");
        },
        Response::Error { message } => {
            push_str_bytes(&mut out, "{\"type\":\"error\",\"message\":\"");
            push_escaped(&mut out, message.as_str());
            push_str_bytes(&mut out, "\"}");
        },
        Response::ReadOk { values } => {
            push_str_bytes(&mut out, "{\"type\":\"read_ok\",\"values\":[");
            let ghost head = out@;
            let ghost dv = values.deep_view();
            let n = values.len();
            let mut k: usize = 0;
            while k < n
                invariant
                    0 <= k <= n == values@.len(),
                    dv == values.deep_view(),
                    dv.len() == values@.len(),
                    forall|m: int| 0 <= m < n ==> dv[m] == values@[m]@,
                    out@ == head + join_values(dv.take(k as int)),
                decreases n - k,
            {
                if k > 0 {
                    out.push(0x2c);
                }
                push_str_bytes(&mut out, values[k].as_str());
                proof {
                    assert(dv.take(k as int + 1).drop_last() =~= dv.take(k as int));
                    assert(dv.take(k as int + 1).last() == dv[k as int]);
                    assert(out@ =~= head + join_values(dv.take(k as int + 1)));
                }
                k = k + 1;
            }
            proof {
                assert(dv.take(n as int) =~= dv);
            }
            push_str_bytes(&mut out, "]}");
        },
    }
    out.push(0x0a);
    proof {
        assert(out@ =~= enc_response(r@) + seq![0x0au8]);
    }
    out
}

// ---------------------------------------------------------------------------
// The request grammar
// ---------------------------------------------------------------------------
/// JSON whitespace.
pub open spec fn is_ws(b: u8) -> bool {
    b == 0x20 || b == 0x09 || b == 0x0a || b == 0x0d
}

pub open spec fn is_digit(b: u8) -> bool {
    0x30 <= b <= 0x39
}

/// First position at or after `i` holding no whitespace.
pub open spec fn skip_ws(s: Seq<u8>, i: int) -> int
    decreases s.len() - i,
{
    if 0 <= i < s.len() && is_ws(s[i]) {
        skip_ws(s, i + 1)
    } else {
        i
    }
}

/// First position at or after `i` holding no decimal digit.
pub open spec fn digits_end(s: Seq<u8>, i: int) -> int
    decreases s.len() - i,
{
    if 0 <= i < s.len() && is_digit(s[i]) {
        digits_end(s, i + 1)
    } else {
        i
    }
}

/// The value of one hexadecimal digit, either case.
pub open spec fn hex_val(b: u8) -> Option<u8> {
    if 0x30 <= b <= 0x39 {
        Some((b - 0x30) as u8)
    } else if 0x41 <= b <= 0x46 {
        Some((b - 0x37) as u8)
    } else if 0x61 <= b <= 0x66 {
        Some((b - 0x57) as u8)
    } else {
        None
    }
}

/// The value of the four hexadecimal digits at `i`, as in a `\u` escape.
pub open spec fn hex4(s: Seq<u8>, i: int) -> Option<u32> {
    if 0 <= i && i + 4 <= s.len() {
        match (hex_val(s[i]), hex_val(s[i + 1]), hex_val(s[i + 2]), hex_val(s[i + 3])) {
            (Some(a), Some(b), Some(c), Some(d)) => Some(
                ((a as u32) * 0x1000 + (b as u32) * 0x100 + (c as u32) * 0x10 + (d as u32)) as u32,
            ),
            _ => None,
        }
    } else {
        None
    }
}

/// The byte a two-character string escape `\e` stands for. The six-character
/// `\u` escapes are handled separately in the string-body rule.
pub open spec fn esc_code(e: u8) -> Option<u8> {
    if e == 0x22 {
        Some(0x22u8)
    } else if e == 0x5c {
        Some(0x5cu8)
    } else if e == 0x2f {
        Some(0x2fu8)
    } else if e == 0x62 {
        Some(0x08u8)
    } else if e == 0x66 {
        Some(0x0cu8)
    } else if e == 0x6e {
        Some(0x0au8)
    } else if e == 0x72 {
        Some(0x0du8)
    } else if e == 0x74 {
        Some(0x09u8)
    } else {
        None
    }
}

/// String-body rule, entered just after the opening quote: the unescaped
/// content bytes (in UTF-8), and the position after the closing quote. Raw
/// control bytes and unknown escapes are rejected. A `\uXXXX` escape stands
/// for that scalar's UTF-8 bytes; a surrogate must form a proper pair, high
/// then low, which stands for the scalar the pair encodes.
pub open spec fn parse_str_body(s: Seq<u8>, i: int) -> Option<(Seq<u8>, int)>
    decreases s.len() - i,
{
    if i < 0 || i >= s.len() {
        None
    } else if s[i] == 0x22 {
        Some((Seq::empty(), i + 1))
    } else if s[i] == 0x5c {
        if i + 1 < s.len() {
            if s[i + 1] == 0x75 {
                match hex4(s, i + 2) {
                    None => None,
                    Some(c1) => if 0xD800 <= c1 <= 0xDBFF {
                        if i + 12 <= s.len() && s[i + 6] == 0x5c && s[i + 7] == 0x75 {
                            match hex4(s, i + 8) {
                                None => None,
                                Some(c2) => if 0xDC00 <= c2 <= 0xDFFF {
                                    match parse_str_body(s, i + 12) {
                                        Some(p) => Some(
                                            (
                                                encode_scalar(
                                                    (0x10000 + (c1 - 0xD800) * 0x400 + (c2
                                                        - 0xDC00)) as u32,
                                                ) + p.0,
                                                p.1,
                                            ),
                                        ),
                                        None => None,
                                    }
                                } else {
                                    None
                                },
                            }
                        } else {
                            None
                        }
                    } else if 0xDC00 <= c1 <= 0xDFFF {
                        None
                    } else {
                        match parse_str_body(s, i + 6) {
                            Some(p) => Some((encode_scalar(c1) + p.0, p.1)),
                            None => None,
                        }
                    },
                }
            } else {
                match esc_code(s[i + 1]) {
                    Some(c) => match parse_str_body(s, i + 2) {
                        Some(p) => Some((seq![c] + p.0, p.1)),
                        None => None,
                    },
                    None => None,
                }
            }
        } else {
            None
        }
    } else if s[i] < 0x20 {
        None
    } else {
        match parse_str_body(s, i + 1) {
            Some(p) => Some((seq![s[i]] + p.0, p.1)),
            None => None,
        }
    }
}

/// String rule: a quoted body whose content bytes are UTF-8, decoded to the
/// characters they encode.
pub open spec fn parse_string(s: Seq<u8>, i: int) -> Option<(Seq<char>, int)> {
    if 0 <= i < s.len() && s[i] == 0x22 {
        match parse_str_body(s, i + 1) {
            Some(p) => if valid_utf8(p.0) {
                Some((decode_utf8(p.0), p.1))
            } else {
                None
            },
            None => None,
        }
    } else {
        None
    }
}

/// Value of the digit run `s[i .. j)`, most significant first.
pub open spec fn digits_val(s: Seq<u8>, i: int, j: int) -> int
    decreases j - i,
{
    if i >= j {
        0
    } else {
        digits_val(s, i, j - 1) * 10 + (s[j - 1] - 0x30)
    }
}

/// Port-sized number rule: a digit run without leading zeros whose value
/// fits a sixteen-bit unsigned integer. (A run of six or more digits cannot:
/// with no leading zero its value is at least one hundred thousand.)
pub open spec fn parse_u16(s: Seq<u8>, i: int) -> Option<(u16, int)> {
    let j = digits_end(s, i);
    if j == i {
        None
    } else if s[i] == 0x30 && j > i + 1 {
        None
    } else if j - i > 5 {
        None
    } else if digits_val(s, i, j) > 65535 {
        None
    } else {
        Some((digits_val(s, i, j) as u16, j))
    }
}

/// Element list of a string array, entered at the first element, carrying the
/// elements read so far.
pub open spec fn parse_items(s: Seq<u8>, i: int, acc: Seq<Seq<char>>) -> Option<
    (Seq<Seq<char>>, int),
>
    decreases s.len() - i,
{
    match parse_string(s, i) {
        None => None,
        Some(p) => {
            let k = skip_ws(s, p.1);
            if k < s.len() && s[k] == 0x2c {
                let m = skip_ws(s, k + 1);
                if i < m && m <= s.len() {
                    parse_items(s, m, acc.push(p.0))
                } else {
                    None
                }
            } else if k < s.len() && s[k] == 0x5d {
                Some((acc.push(p.0), k + 1))
            } else {
                None
            }
        },
    }
}

/// Array-of-strings rule.
pub open spec fn parse_str_array(s: Seq<u8>, i: int) -> Option<(Seq<Seq<char>>, int)> {
    if 0 <= i < s.len() && s[i] == 0x5b {
        let j = skip_ws(s, i + 1);
        if j < s.len() && s[j] == 0x5d {
            Some((Seq::empty(), j + 1))
        } else {
            parse_items(s, j, Seq::empty())
        }
    } else {
        None
    }
}

/// The request's discriminant.
#[derive(Debug, Clone, Copy, PartialEq, Eq, Structural)]
pub enum Tag {
    Connect,
    Read,
}

/// The members seen so far while reading an object, each at most once.
pub struct PartialV {
    pub tag: Option<Tag>,
    pub host: Option<Seq<char>>,
    pub port: Option<u16>,
    pub namespace: Option<u16>,
    pub endpoint: Option<Option<Seq<char>>>,
    pub node_ids: Option<Seq<Seq<char>>>,
}

pub open spec fn empty_partial() -> PartialV {
    PartialV { tag: None, host: None, port: None, namespace: None, endpoint: None, node_ids: None }
}

// The member keys and tag values, as the unescaped content bytes of their
// JSON strings.
pub open spec fn k_type() -> Seq<u8> {
    seq![0x74u8, 0x79, 0x70, 0x65]
}

pub open spec fn k_host() -> Seq<u8> {
    seq![0x68u8, 0x6f, 0x73, 0x74]
}

pub open spec fn k_port() -> Seq<u8> {
    seq![0x70u8, 0x6f, 0x72, 0x74]
}

pub open spec fn k_namespace() -> Seq<u8> {
    seq![0x6eu8, 0x61, 0x6d, 0x65, 0x73, 0x70, 0x61, 0x63, 0x65]
}

pub open spec fn k_endpoint() -> Seq<u8> {
    seq![0x65u8, 0x6e, 0x64, 0x70, 0x6f, 0x69, 0x6e, 0x74]
}

pub open spec fn k_node_ids() -> Seq<u8> {
    seq![0x6eu8, 0x6f, 0x64, 0x65, 0x5f, 0x69, 0x64, 0x73]
}

pub open spec fn k_connect() -> Seq<u8> {
    seq![0x63u8, 0x6f, 0x6e, 0x6e, 0x65, 0x63, 0x74]
}

pub open spec fn k_read() -> Seq<u8> {
    seq![0x72u8, 0x65, 0x61, 0x64]
}

/// Member rule, after the colon: how one key's value extends what was seen.
/// A key seen twice, a key outside the schema, or a value of the wrong shape
/// rejects the object — deliberately, so that no member of a request is ever
/// silently ignored.
pub open spec fn parse_member_value(s: Seq<u8>, i: int, key: Seq<u8>, p: PartialV) -> Option<
    (PartialV, int),
> {
    if key == k_type() {
        if p.tag is Some {
            None
        } else if 0 <= i < s.len() && s[i] == 0x22 {
            match parse_str_body(s, i + 1) {
                Some(tp) => if tp.0 == k_connect() {
                    Some((PartialV { tag: Some(Tag::Connect), ..p }, tp.1))
                } else if tp.0 == k_read() {
                    Some((PartialV { tag: Some(Tag::Read), ..p }, tp.1))
                } else {
                    None
                },
                None => None,
            }
        } else {
            None
        }
    } else if key == k_host() {
        if p.host is Some {
            None
        } else {
            match parse_string(s, i) {
                Some(hp) => Some((PartialV { host: Some(hp.0), ..p }, hp.1)),
                None => None,
            }
        }
    } else if key == k_port() {
        if p.port is Some {
            None
        } else {
            match parse_u16(s, i) {
                Some(np) => Some((PartialV { port: Some(np.0), ..p }, np.1)),
                None => None,
            }
        }
    } else if key == k_namespace() {
        if p.namespace is Some {
            None
        } else {
            match parse_u16(s, i) {
                Some(np) => Some((PartialV { namespace: Some(np.0), ..p }, np.1)),
                None => None,
            }
        }
    } else if key == k_endpoint() {
        if p.endpoint is Some {
            None
        } else if 0 <= i && i + 4 <= s.len() && s[i] == 0x6e && s[i + 1] == 0x75 && s[i + 2]
            == 0x6c && s[i + 3] == 0x6c {
            Some((PartialV { endpoint: Some(None), ..p }, i + 4))
        } else {
            match parse_string(s, i) {
                Some(ep) => Some((PartialV { endpoint: Some(Some(ep.0)), ..p }, ep.1)),
                None => None,
            }
        }
    } else if key == k_node_ids() {
        if p.node_ids is Some {
            None
        } else {
            match parse_str_array(s, i) {
                Some(ap) => Some((PartialV { node_ids: Some(ap.0), ..p }, ap.1)),
                None => None,
            }
        }
    } else {
        None
    }
}

/// Member-list rule, entered at a member's opening quote.
pub open spec fn parse_members(s: Seq<u8>, i: int, p: PartialV) -> Option<(PartialV, int)>
    decreases s.len() - i,
{
    if 0 <= i < s.len() && s[i] == 0x22 {
        match parse_str_body(s, i + 1) {
            None => None,
            Some(kp) => {
                let k = skip_ws(s, kp.1);
                if k < s.len() && s[k] == 0x3a {
                    let v = skip_ws(s, k + 1);
                    match parse_member_value(s, v, kp.0, p) {
                        None => None,
                        Some(vp) => {
                            let q = skip_ws(s, vp.1);
                            if q < s.len() && s[q] == 0x2c {
                                let m = skip_ws(s, q + 1);
                                if i < m && m <= s.len() {
                                    parse_members(s, m, vp.0)
                                } else {
                                    None
                                }
                            } else if q < s.len() && s[q] == 0x7d {
                                Some((vp.0, q + 1))
                            } else {
                                None
                            }
                        },
                    }
                } else {
                    None
                }
            },
        }
    } else {
        None
    }
}

/// Whether the members seen form a complete request: the variant's own
/// members all present, none of the other variant's, the optional endpoint
/// defaulting to absent.
pub open spec fn finish_request(p: PartialV) -> Option<ReqV> {
    match p.tag {
        None => None,
        Some(Tag::Connect) => if p.host is Some && p.port is Some && p.namespace is Some
            && p.node_ids is None {
            Some(
                ReqV::Connect {
                    host: p.host->0,
                    port: p.port->0,
                    namespace: p.namespace->0,
                    endpoint: match p.endpoint {
                        Some(e) => e,
                        None => None,
                    },
                },
            )
        } else {
            None
        },
        Some(Tag::Read) => if p.node_ids is Some && p.host is None && p.port is None
            && p.namespace is None && p.endpoint is None {
            Some(ReqV::Read { node_ids: p.node_ids->0 })
        } else {
            None
        },
    }
}

/// The whole request grammar: optional whitespace, one object whose members
/// form a complete request, optional whitespace, end of frame.
pub open spec fn spec_parse_request(s: Seq<u8>) -> Option<ReqV> {
    let i = skip_ws(s, 0);
    if i < s.len() && s[i] == 0x7b {
        let j = skip_ws(s, i + 1);
        match parse_members(s, j, empty_partial()) {
            None => None,
            Some(p) => if skip_ws(s, p.1) == s.len() {
                finish_request(p.0)
            } else {
                None
            },
        }
    } else {
        None
    }
}

// ---------------------------------------------------------------------------
// The executable parser
// ---------------------------------------------------------------------------
fn skip_ws_exec(s: &[u8], i: usize) -> (r: usize)
    requires
        i <= s@.len(),
    ensures
        r == skip_ws(s@, i as int),
        i <= r <= s@.len(),
{
    let n = s.len();
    let mut j = i;
    while j < n
        invariant
            i <= j <= n == s@.len(),
            skip_ws(s@, i as int) == skip_ws(s@, j as int),
        decreases n - j,
    {
        let b = s[j];
        if !(b == 0x20 || b == 0x09 || b == 0x0a || b == 0x0d) {
            return j;
        }
        j = j + 1;
    }
    j
}

fn digits_end_exec(s: &[u8], i: usize) -> (r: usize)
    requires
        i <= s@.len(),
    ensures
        r == digits_end(s@, i as int),
        i <= r <= s@.len(),
{
    let n = s.len();
    let mut j = i;
    while j < n
        invariant
            i <= j <= n == s@.len(),
            digits_end(s@, i as int) == digits_end(s@, j as int),
        decreases n - j,
    {
        let b = s[j];
        if !(0x30 <= b && b <= 0x39) {
            return j;
        }
        j = j + 1;
    }
    j
}

/// Everything up to `digits_end` is a digit.
proof fn lemma_digits_range(s: Seq<u8>, i: int)
    requires
        0 <= i <= s.len(),
    ensures
        i <= digits_end(s, i) <= s.len(),
        forall|k: int| i <= k < digits_end(s, i) ==> is_digit(s[k]),
    decreases s.len() - i,
{
    if 0 <= i < s.len() && is_digit(s[i]) {
        lemma_digits_range(s, i + 1);
    }
}

spec fn pow10(n: nat) -> int
    decreases n,
{
    if n == 0 {
        1
    } else {
        10 * pow10((n - 1) as nat)
    }
}

fn parse_u16_exec(s: &[u8], i: usize) -> (r: Option<(u16, usize)>)
    requires
        i <= s@.len(),
    ensures
        match r {
            Some(p) => parse_u16(s@, i as int) == Some((p.0, p.1 as int)) && i < p.1 <= s@.len(),
            None => parse_u16(s@, i as int) is None,
        },
{
    let j = digits_end_exec(s, i);
    proof {
        lemma_digits_range(s@, i as int);
    }
    if j == i {
        return None;
    }
    if s[i] == 0x30 && j > i + 1 {
        return None;
    }
    if j - i > 5 {
        return None;
    }
    let mut val: u32 = 0;
    let mut k = i;
    while k < j
        invariant
            i <= k <= j <= s@.len(),
            j - i <= 5,
            j == digits_end(s@, i as int),
            forall|t: int| i <= t < j ==> is_digit(s@[t]),
            val == digits_val(s@, i as int, k as int),
            val < pow10((k - i) as nat),
        decreases j - k,
    {
        let d = s[k] - 0x30;
        proof {
            assert(pow10(0) == 1);
            assert(pow10(1) == 10);
            assert(pow10(2) == 100);
            assert(pow10(3) == 1000);
            assert(pow10(4) == 10000);
            let m = (k - i) as nat;
            assert(m == 0 || m == 1 || m == 2 || m == 3 || m == 4);
            assert(pow10(m) <= 10000);
            assert(pow10(m + 1) == 10 * pow10(m));
        }
        val = val * 10 + (d as u32);
        k = k + 1;
    }
    if val > 65535 {
        return None;
    }
    Some((val as u16, j))
}

fn esc_code_exec(e: u8) -> (r: Option<u8>)
    ensures
        r == esc_code(e),
{
    if e == 0x22 {
        Some(0x22)
    } else if e == 0x5c {
        Some(0x5c)
    } else if e == 0x2f {
        Some(0x2f)
    } else if e == 0x62 {
        Some(0x08)
    } else if e == 0x66 {
        Some(0x0c)
    } else if e == 0x6e {
        Some(0x0a)
    } else if e == 0x72 {
        Some(0x0d)
    } else if e == 0x74 {
        Some(0x09)
    } else {
        None
    }
}

fn hex_val_exec(b: u8) -> (r: Option<u8>)
    ensures
        r == hex_val(b),
{
    if 0x30 <= b && b <= 0x39 {
        Some(b - 0x30)
    } else if 0x41 <= b && b <= 0x46 {
        Some(b - 0x37)
    } else if 0x61 <= b && b <= 0x66 {
        Some(b - 0x57)
    } else {
        None
    }
}

fn hex4_exec(s: &[u8], i: usize) -> (r: Option<u32>)
    requires
        i <= s@.len(),
    ensures
        r == hex4(s@, i as int),
        r is Some ==> i + 4 <= s@.len(),
{
    if s.len() - i >= 4 {
        match (
            hex_val_exec(s[i]),
            hex_val_exec(s[i + 1]),
            hex_val_exec(s[i + 2]),
            hex_val_exec(s[i + 3]),
        ) {
            (Some(a), Some(b), Some(c), Some(d)) => Some(
                (a as u32) * 0x1000 + (b as u32) * 0x100 + (c as u32) * 0x10 + (d as u32),
            ),
            _ => None,
        }
    } else {
        None
    }
}

/// The UTF-8 bytes of one Unicode scalar.
fn scalar_bytes(c: u32) -> (v: Vec<u8>)
    requires
        vstd::utf8::is_scalar(c),
    ensures
        v@ == encode_scalar(c),
{
    let mut v: Vec<u8> = Vec::new();
    if c <= 0x7f {
        v.push((c & 0x7f) as u8);
    } else if c <= 0x7ff {
        v.push(0xc0u8 | (((c >> 6) & 0x1f) as u8));
        v.push(0x80u8 | ((c & 0x3f) as u8));
    } else if c <= 0xffff {
        v.push(0xe0u8 | (((c >> 12) & 0x0f) as u8));
        v.push(0x80u8 | (((c >> 6) & 0x3f) as u8));
        v.push(0x80u8 | ((c & 0x3f) as u8));
    } else {
        v.push(0xf0u8 | (((c >> 18) & 0x7) as u8));
        v.push(0x80u8 | (((c >> 12) & 0x3f) as u8));
        v.push(0x80u8 | (((c >> 6) & 0x3f) as u8));
        v.push(0x80u8 | ((c & 0x3f) as u8));
    }
    proof {
        assert(v@ =~= encode_scalar(c));
    }
    v
}

fn parse_str_body_exec(s: &[u8], i: usize) -> (r: Option<(Vec<u8>, usize)>)
    requires
        i <= s@.len(),
    ensures
        match r {
            Some(p) => parse_str_body(s@, i as int) == Some((p.0@, p.1 as int)) && i < p.1
                <= s@.len(),
            None => parse_str_body(s@, i as int) is None,
        },
    decreases s@.len() - i,
{
    if i >= s.len() {
        return None;
    }
    let b = s[i];
    if b == 0x22 {
        let v: Vec<u8> = Vec::new();
        Some((v, i + 1))
    } else if b == 0x5c {
        if i + 1 < s.len() {
            if s[i + 1] == 0x75 {
                match hex4_exec(s, i + 2) {
                    None => None,
                    Some(c1) => {
                        if 0xd800 <= c1 && c1 <= 0xdbff {
                            if s.len() - i >= 12 && s[i + 6] == 0x5c && s[i + 7] == 0x75 {
                                match hex4_exec(s, i + 8) {
                                    None => None,
                                    Some(c2) => {
                                        if 0xdc00 <= c2 && c2 <= 0xdfff {
                                            let cp: u32 = 0x10000 + (c1 - 0xd800) * 0x400 + (c2
                                                - 0xdc00);
                                            match parse_str_body_exec(s, i + 12) {
                                                None => None,
                                                Some((rest, j)) => {
                                                    let mut v = scalar_bytes(cp);
                                                    let ghost pv = v@;
                                                    let ghost rv = rest@;
                                                    let mut rest = rest;
                                                    v.append(&mut rest);
                                                    proof {
                                                        assert(v@ =~= pv + rv);
                                                    }
                                                    Some((v, j))
                                                },
                                            }
                                        } else {
                                            None
                                        }
                                    },
                                }
                            } else {
                                None
                            }
                        } else if 0xdc00 <= c1 && c1 <= 0xdfff {
                            None
                        } else {
                            match parse_str_body_exec(s, i + 6) {
                                None => None,
                                Some((rest, j)) => {
                                    let mut v = scalar_bytes(c1);
                                    let ghost pv = v@;
                                    let ghost rv = rest@;
                                    let mut rest = rest;
                                    v.append(&mut rest);
                                    proof {
                                        assert(v@ =~= pv + rv);
                                    }
                                    Some((v, j))
                                },
                            }
                        }
                    },
                }
            } else {
                match esc_code_exec(s[i + 1]) {
                    None => None,
                    Some(c) => match parse_str_body_exec(s, i + 2) {
                        None => None,
                        Some((rest, j)) => {
                            let mut v = rest;
                            let ghost rv = v@;
                            v.insert(0, c);
                            proof {
                                assert(v@ =~= seq![c] + rv);
                            }
                            Some((v, j))
                        },
                    },
                }
            }
        } else {
            None
        }
    } else if b < 0x20 {
        None
    } else {
        match parse_str_body_exec(s, i + 1) {
            None => None,
            Some((rest, j)) => {
                let mut v = rest;
                let ghost rv = v@;
                v.insert(0, b);
                proof {
                    assert(v@ =~= seq![b] + rv);
                }
                Some((v, j))
            },
        }
    }
}

fn parse_string_exec(s: &[u8], i: usize) -> (r: Option<(String, usize)>)
    requires
        i <= s@.len(),
    ensures
        match r {
            Some(p) => parse_string(s@, i as int) == Some((p.0@, p.1 as int)) && i < p.1
                <= s@.len(),
            None => parse_string(s@, i as int) is None,
        },
{
    if i < s.len() && s[i] == 0x22 {
        match parse_str_body_exec(s, i + 1) {
            None => None,
            Some((content, j)) => match string_from_bytes(content) {
                Some(text) => Some((text, j)),
                None => None,
            },
        }
    } else {
        None
    }
}

fn parse_items_exec(s: &[u8], i: usize, acc: Vec<String>) -> (r: Option<(Vec<String>, usize)>)
    requires
        i <= s@.len(),
    ensures
        match r {
            Some(p) => parse_items(s@, i as int, acc.deep_view()) == Some(
                (p.0.deep_view(), p.1 as int),
            ) && p.1 <= s@.len(),
            None => parse_items(s@, i as int, acc.deep_view()) is None,
        },
    decreases s@.len() - i,
{
    match parse_string_exec(s, i) {
        None => None,
        Some((elem, j)) => {
            let k = skip_ws_exec(s, j);
            if k < s.len() && s[k] == 0x2c {
                let m = skip_ws_exec(s, k + 1);
                if i < m {
                    let ghost av = acc.deep_view();
                    let ghost ev = elem@;
                    let mut acc2 = acc;
                    acc2.push(elem);
                    proof {
                        assert(acc2.deep_view() =~= av.push(ev));
                    }
                    parse_items_exec(s, m, acc2)
                } else {
                    None
                }
            } else if k < s.len() && s[k] == 0x5d {
                let ghost av = acc.deep_view();
                let ghost ev = elem@;
                let mut acc2 = acc;
                acc2.push(elem);
                proof {
                    assert(acc2.deep_view() =~= av.push(ev));
                }
                Some((acc2, k + 1))
            } else {
                None
            }
        },
    }
}

fn parse_str_array_exec(s: &[u8], i: usize) -> (r: Option<(Vec<String>, usize)>)
    requires
        i <= s@.len(),
    ensures
        match r {
            Some(p) => parse_str_array(s@, i as int) == Some((p.0.deep_view(), p.1 as int)) && p.1
                <= s@.len(),
            None => parse_str_array(s@, i as int) is None,
        },
{
    if i < s.len() && s[i] == 0x5b {
        let j = skip_ws_exec(s, i + 1);
        if j < s.len() && s[j] == 0x5d {
            let v: Vec<String> = Vec::new();
            proof {
                assert(v.deep_view() =~= Seq::<Seq<char>>::empty());
            }
            Some((v, j + 1))
        } else {
            let acc: Vec<String> = Vec::new();
            proof {
                assert(acc.deep_view() =~= Seq::<Seq<char>>::empty());
            }
            parse_items_exec(s, j, acc)
        }
    } else {
        None
    }
}

fn bytes_eq(a: &[u8], b: &[u8]) -> (r: bool)
    ensures
        r == (a@ == b@),
{
    if a.len() != b.len() {
        return false;
    }
    let n = a.len();
    let mut i: usize = 0;
    while i < n
        invariant
            0 <= i <= n == a@.len(),
            a@.len() == b@.len(),
            forall|k: int| 0 <= k < i ==> a@[k] == b@[k],
        decreases n - i,
    {
        if a[i] != b[i] {
            return false;
        }
        i = i + 1;
    }
    proof {
        assert(a@ =~= b@);
    }
    true
}

fn key_type_bytes() -> (v: Vec<u8>)
    ensures
        v@ == k_type(),
{
    let mut v: Vec<u8> = Vec::new();
    v.push(0x74);
    v.push(0x79);
    v.push(0x70);
    v.push(0x65);
    proof {
        assert(v@ =~= k_type());
    }
    v
}

fn key_host_bytes() -> (v: Vec<u8>)
    ensures
        v@ == k_host(),
{
    let mut v: Vec<u8> = Vec::new();
    v.push(0x68);
    v.push(0x6f);
    v.push(0x73);
    v.push(0x74);
    proof {
        assert(v@ =~= k_host());
    }
    v
}

fn key_port_bytes() -> (v: Vec<u8>)
    ensures
        v@ == k_port(),
{
    let mut v: Vec<u8> = Vec::new();
    v.push(0x70);
    v.push(0x6f);
    v.push(0x72);
    v.push(0x74);
    proof {
        assert(v@ =~= k_port());
    }
    v
}

fn key_namespace_bytes() -> (v: Vec<u8>)
    ensures
        v@ == k_namespace(),
{
    let mut v: Vec<u8> = Vec::new();
    v.push(0x6e);
    v.push(0x61);
    v.push(0x6d);
    v.push(0x65);
    v.push(0x73);
    v.push(0x70);
    v.push(0x61);
    v.push(0x63);
    v.push(0x65);
    proof {
        assert(v@ =~= k_namespace());
    }
    v
}

fn key_endpoint_bytes() -> (v: Vec<u8>)
    ensures
        v@ == k_endpoint(),
{
    let mut v: Vec<u8> = Vec::new();
    v.push(0x65);
    v.push(0x6e);
    v.push(0x64);
    v.push(0x70);
    v.push(0x6f);
    v.push(0x69);
    v.push(0x6e);
    v.push(0x74);
    proof {
        assert(v@ =~= k_endpoint());
    }
    v
}

fn key_node_ids_bytes() -> (v: Vec<u8>)
    ensures
        v@ == k_node_ids(),
{
    let mut v: Vec<u8> = Vec::new();
    v.push(0x6e);
    v.push(0x6f);
    v.push(0x64);
    v.push(0x65);
    v.push(0x5f);
    v.push(0x69);
    v.push(0x64);
    v.push(0x73);
    proof {
        assert(v@ =~= k_node_ids());
    }
    v
}

fn tag_connect_bytes() -> (v: Vec<u8>)
    ensures
        v@ == k_connect(),
{
    let mut v: Vec<u8> = Vec::new();
    v.push(0x63);
    v.push(0x6f);
    v.push(0x6e);
    v.push(0x6e);
    v.push(0x65);
    v.push(0x63);
    v.push(0x74);
    proof {
        assert(v@ =~= k_connect());
    }
    v
}

fn tag_read_bytes() -> (v: Vec<u8>)
    ensures
        v@ == k_read(),
{
    let mut v: Vec<u8> = Vec::new();
    v.push(0x72);
    v.push(0x65);
    v.push(0x61);
    v.push(0x64);
    proof {
        assert(v@ =~= k_read());
    }
    v
}

/// The members read so far, the executable side of [`PartialV`].
struct Partial {
    tag: Option<Tag>,
    host: Option<String>,
    port: Option<u16>,
    namespace: Option<u16>,
    endpoint: Option<Option<String>>,
    node_ids: Option<Vec<String>>,
}

impl View for Partial {
    type V = PartialV;

    closed spec fn view(&self) -> PartialV {
        PartialV {
            tag: self.tag,
            host: self.host.deep_view(),
            port: self.port,
            namespace: self.namespace,
            endpoint: self.endpoint.deep_view(),
            node_ids: self.node_ids.deep_view(),
        }
    }
}

impl Partial {
    fn new() -> (p: Partial)
        ensures
            p@ == empty_partial(),
    {
        Partial { tag: None, host: None, port: None, namespace: None, endpoint: None, node_ids: None }
    }
}

fn parse_member_value_exec(s: &[u8], i: usize, key: &Vec<u8>, p: Partial) -> (r: Option<
    (Partial, usize),
>)
    requires
        i <= s@.len(),
    ensures
        match r {
            Some(q) => parse_member_value(s@, i as int, key@, p@) == Some((q.0@, q.1 as int))
                && q.1 <= s@.len(),
            None => parse_member_value(s@, i as int, key@, p@) is None,
        },
{
    let kt = key_type_bytes();
    let kh = key_host_bytes();
    let kp = key_port_bytes();
    let kn = key_namespace_bytes();
    let ke = key_endpoint_bytes();
    let ki = key_node_ids_bytes();
    if bytes_eq(key.as_slice(), kt.as_slice()) {
        if p.tag.is_some() {
            None
        } else if i < s.len() && s[i] == 0x22 {
            match parse_str_body_exec(s, i + 1) {
                None => None,
                Some((tb, j)) => {
                    let tc = tag_connect_bytes();
                    let tr = tag_read_bytes();
                    if bytes_eq(tb.as_slice(), tc.as_slice()) {
                        Some((Partial { tag: Some(Tag::Connect), ..p }, j))
                    } else if bytes_eq(tb.as_slice(), tr.as_slice()) {
                        Some((Partial { tag: Some(Tag::Read), ..p }, j))
                    } else {
                        None
                    }
                },
            }
        } else {
            None
        }
    } else if bytes_eq(key.as_slice(), kh.as_slice()) {
        if p.host.is_some() {
            None
        } else {
            match parse_string_exec(s, i) {
                Some((h, j)) => Some((Partial { host: Some(h), ..p }, j)),
                None => None,
            }
        }
    } else if bytes_eq(key.as_slice(), kp.as_slice()) {
        if p.port.is_some() {
            None
        } else {
            match parse_u16_exec(s, i) {
                Some((n, j)) => Some((Partial { port: Some(n), ..p }, j)),
                None => None,
            }
        }
    } else if bytes_eq(key.as_slice(), kn.as_slice()) {
        if p.namespace.is_some() {
            None
        } else {
            match parse_u16_exec(s, i) {
                Some((n, j)) => Some((Partial { namespace: Some(n), ..p }, j)),
                None => None,
            }
        }
    } else if bytes_eq(key.as_slice(), ke.as_slice()) {
        if p.endpoint.is_some() {
            None
        } else if i < s.len() && s.len() - i >= 4 && s[i] == 0x6e && s[i + 1] == 0x75 && s[i + 2]
            == 0x6c && s[i + 3] == 0x6c {
            Some((Partial { endpoint: Some(None), ..p }, i + 4))
        } else {
            match parse_string_exec(s, i) {
                Some((e, j)) => Some((Partial { endpoint: Some(Some(e)), ..p }, j)),
                None => None,
            }
        }
    } else if bytes_eq(key.as_slice(), ki.as_slice()) {
        if p.node_ids.is_some() {
            None
        } else {
            match parse_str_array_exec(s, i) {
                Some((ids, j)) => Some((Partial { node_ids: Some(ids), ..p }, j)),
                None => None,
            }
        }
    } else {
        None
    }
}

fn parse_members_exec(s: &[u8], i: usize, p: Partial) -> (r: Option<(Partial, usize)>)
    requires
        i <= s@.len(),
    ensures
        match r {
            Some(q) => parse_members(s@, i as int, p@) == Some((q.0@, q.1 as int)) && q.1
                <= s@.len(),
            None => parse_members(s@, i as int, p@) is None,
        },
    decreases s@.len() - i,
{
    if i < s.len() && s[i] == 0x22 {
        match parse_str_body_exec(s, i + 1) {
            None => None,
            Some((key, j)) => {
                let k = skip_ws_exec(s, j);
                if k < s.len() && s[k] == 0x3a {
                    let v = skip_ws_exec(s, k + 1);
                    match parse_member_value_exec(s, v, &key, p) {
                        None => None,
                        Some((p2, m)) => {
                            let q = skip_ws_exec(s, m);
                            if q < s.len() && s[q] == 0x2c {
                                let w = skip_ws_exec(s, q + 1);
                                if i < w {
                                    parse_members_exec(s, w, p2)
                                } else {
                                    None
                                }
                            } else if q < s.len() && s[q] == 0x7d {
                                Some((p2, q + 1))
                            } else {
                                None
                            }
                        },
                    }
                } else {
                    None
                }
            },
        }
    } else {
        None
    }
}

fn finish_request_exec(p: Partial) -> (r: Option<Request>)
    ensures
        match r {
            Some(req) => finish_request(p@) == Some(req@),
            None => finish_request(p@) is None,
        },
{
    match p.tag {
        None => None,
        Some(Tag::Connect) => match (p.host, p.port, p.namespace, p.node_ids) {
            (Some(host), Some(port), Some(namespace), None) => {
                let endpoint = match p.endpoint {
                    Some(e) => e,
                    None => None,
                };
                Some(Request::Connect { host, port, namespace, endpoint })
            },
            _ => None,
        },
        Some(Tag::Read) => match (p.host, p.port, p.namespace, p.endpoint, p.node_ids) {
            (None, None, None, None, Some(node_ids)) => Some(Request::Read { node_ids }),
            _ => None,
        },
    }
}

/// Decodes one frame into a request. The frame must be UTF-8 text matching
/// the request grammar: exactly the decoded request comes back, and the error
/// says which of the two conditions failed.
pub fn parse_request(frame: &[u8]) -> (r: Result<Request, DecodeError>)
    ensures
        match r {
            Ok(req) => valid_utf8(frame@) && spec_parse_request(frame@) == Some(req@),
            Err(DecodeError::InvalidEncoding) => !valid_utf8(frame@),
            Err(DecodeError::InvalidSchema) => valid_utf8(frame@) && spec_parse_request(frame@)
                is None,
        },
{
    let copy = vstd::slice::slice_to_vec(frame);
    if string_from_bytes(copy).is_none() {
        return Err(DecodeError::InvalidEncoding);
    }
    let i = skip_ws_exec(frame, 0);
    if i < frame.len() && frame[i] == 0x7b {
        let j = skip_ws_exec(frame, i + 1);
        match parse_members_exec(frame, j, Partial::new()) {
            None => Err(DecodeError::InvalidSchema),
            Some((p, m)) => {
                let e = skip_ws_exec(frame, m);
                if e == frame.len() {
                    match finish_request_exec(p) {
                        Some(req) => Ok(req),
                        None => Err(DecodeError::InvalidSchema),
                    }
                } else {
                    Err(DecodeError::InvalidSchema)
                }
            },
        }
    } else {
        Err(DecodeError::InvalidSchema)
    }
}

/// No line feed survives JSON string escaping: every byte below `0x20` is
/// rewritten into an escape of printable characters.
proof fn lemma_esc_bytes_no_lf(s: Seq<u8>)
    ensures
        forall|k: int| 0 <= k < esc_bytes(s).len() ==> esc_bytes(s)[k] != 0x0a,
    decreases s.len(),
{
    if s.len() > 0 {
        lemma_esc_bytes_no_lf(s.drop_last());
        let b = s.last();
        assert forall|k: int| 0 <= k < esc_byte(b).len() implies esc_byte(b)[k] != 0x0a by {
            if !(b == 0x22 || b == 0x5c || b == 0x08 || b == 0x0c || b == 0x0a || b == 0x0d || b
                == 0x09) && b < 0x20 {
                assert(hex_char(b / 16) != 0x0a);
                assert(hex_char(b % 16) != 0x0a);
            }
        }
        assert forall|k: int| 0 <= k < esc_bytes(s).len() implies esc_bytes(s)[k] != 0x0a by {
            let p = esc_bytes(s.drop_last());
            if k < p.len() {
                assert(esc_bytes(s)[k] == p[k]);
            } else {
                assert(esc_bytes(s)[k] == esc_byte(b)[k - p.len()]);
            }
        }
    }
}

/// The bytes of an ASCII string literal without line feeds hold none.
proof fn lemma_lit_no_lf(s: &str)
    requires
        vstd::string::is_ascii(s),
        forall|i: int| 0 <= i < s@.len() ==> s@[i] != '\n',
    ensures
        forall|k: int| 0 <= k < s.spec_bytes().len() ==> s.spec_bytes()[k] != 0x0a,
{
    vstd::utf8::is_ascii_chars_encode_utf8(s@);
    assert forall|k: int| 0 <= k < s.spec_bytes().len() implies s.spec_bytes()[k] != 0x0a by {
        assert(s.spec_bytes()[k] == s@[k] as u8);
        assert(s@[k] != '\n');
    }
}

/// One response is one frame: cutting an encoded connect or error frame at
/// its first delimiter yields exactly that frame's JSON text with nothing
/// carried over, whatever the message says — the escaping keeps the
/// delimiter byte out of the text. (A read frame's values are opaque
/// splices, so the same holds of it only when their producer kept the
/// delimiter out of them.)
pub proof fn law_one_frame_per_response(message: Seq<char>)
    ensures
        crate::framer::frame_split(enc_response(RespV::ConnectOk) + seq![0x0au8]) == Some((
            enc_response(RespV::ConnectOk),
            Seq::<u8>::empty(),
        )),
        crate::framer::frame_split(enc_response(RespV::Error { message }) + seq![0x0au8]) == Some((
            enc_response(RespV::Error { message }),
            Seq::<u8>::empty(),
        )),
{
    let l1 = "{\"type\":\"connect_ok\"}";
    let l2 = "{\"type\":\"error\",\"message\":\"";
    let l3 = "\"}";
    reveal_strlit("{\"type\":\"connect_ok\"}");
    reveal_strlit("{\"type\":\"error\",\"message\":\"");
    reveal_strlit("\"}");
    assert(vstd::string::is_ascii(l1) && (forall|i: int| 0 <= i < l1@.len() ==> l1@[i] != '\n'));
    assert(vstd::string::is_ascii(l2) && (forall|i: int| 0 <= i < l2@.len() ==> l2@[i] != '\n'));
    assert(vstd::string::is_ascii(l3) && (forall|i: int| 0 <= i < l3@.len() ==> l3@[i] != '\n'));
    lemma_lit_no_lf(l1);
    lemma_lit_no_lf(l2);
    lemma_lit_no_lf(l3);
    lemma_esc_bytes_no_lf(encode_utf8(message));

    let ok = enc_response(RespV::ConnectOk);
    assert(forall|k: int| 0 <= k < ok.len() ==> ok[k] != 0x0a);
    crate::framer::lemma_frame_split_payload(ok, Seq::<u8>::empty());
    assert(ok + seq![0x0au8] + Seq::<u8>::empty() =~= ok + seq![0x0au8]);

    let er = enc_response(RespV::Error { message });
    assert(forall|k: int| 0 <= k < er.len() ==> er[k] != 0x0a);
    crate::framer::lemma_frame_split_payload(er, Seq::<u8>::empty());
    assert(er + seq![0x0au8] + Seq::<u8>::empty() =~= er + seq![0x0au8]);
}

/// The comma-joined value splice holds no line feed when none of the spliced
/// payloads does.
proof fn lemma_join_values_no_lf(vs: Seq<Seq<char>>)
    requires
        forall|idx: int, k: int|
            0 <= idx < vs.len() && 0 <= k < encode_utf8(vs[idx]).len() ==> #[trigger] encode_utf8(
                vs[idx],
            )[k] != 0x0a,
    ensures
        forall|k: int| 0 <= k < join_values(vs).len() ==> join_values(vs)[k] != 0x0a,
    decreases vs.len(),
{
    if vs.len() <= 1 {
    } else {
        let pre = vs.drop_last();
        assert forall|idx: int, k: int|
            0 <= idx < pre.len() && 0 <= k < encode_utf8(pre[idx]).len() implies #[trigger] encode_utf8(
            pre[idx],
        )[k] != 0x0a by {
            assert(pre[idx] == vs[idx]);
        }
        lemma_join_values_no_lf(pre);
        let p = join_values(pre);
        let e = encode_utf8(vs.last());
        assert forall|k: int| 0 <= k < join_values(vs).len() implies join_values(vs)[k] != 0x0a by {
            if k < p.len() {
                assert(join_values(vs)[k] == p[k]);
            } else if k == p.len() {
                assert(join_values(vs)[k] == 0x2cu8);
            } else {
                assert(join_values(vs)[k] == e[k - p.len() - 1]);
                assert(vs.last() == vs[vs.len() - 1]);
            }
        }
    }
}

/// The read-frame form of [`law_one_frame_per_response`], under the wire
/// format's obligation on the values' producer: when no spliced payload holds
/// a raw line feed, an encoded read frame holds the delimiter only at its
/// end, so it too is cut exactly where it was written.
pub proof fn law_one_frame_per_read_response(values: Seq<Seq<char>>)
    requires
        forall|idx: int, k: int|
            0 <= idx < values.len() && 0 <= k < encode_utf8(values[idx]).len()
                ==> #[trigger] encode_utf8(values[idx])[k] != 0x0a,
    ensures
        crate::framer::frame_split(enc_response(RespV::ReadOk { values }) + seq![0x0au8]) == Some((
            enc_response(RespV::ReadOk { values }),
            Seq::<u8>::empty(),
        )),
{
    let l1 = "{\"type\":\"read_ok\",\"values\":[";
    let l2 = "]}";
    reveal_strlit("{\"type\":\"read_ok\",\"values\":[");
    reveal_strlit("]}");
    assert(vstd::string::is_ascii(l1) && (forall|i: int| 0 <= i < l1@.len() ==> l1@[i] != '\n'));
    assert(vstd::string::is_ascii(l2) && (forall|i: int| 0 <= i < l2@.len() ==> l2@[i] != '\n'));
    lemma_lit_no_lf(l1);
    lemma_lit_no_lf(l2);
    lemma_join_values_no_lf(values);
    let ro = enc_response(RespV::ReadOk { values });
    assert(forall|k: int| 0 <= k < ro.len() ==> ro[k] != 0x0a);
    crate::framer::lemma_frame_split_payload(ro, Seq::<u8>::empty());
    assert(ro + seq![0x0au8] + Seq::<u8>::empty() =~= ro + seq![0x0au8]);
}

} // verus!
