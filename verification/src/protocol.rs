//! The length-prefixed binary framing protocol: a fixed 14-byte header,
//! optional UTF-8 args (JSON for handshake frames), and an opaque body.
use vstd::prelude::*;
use vstd::utf8::encode_utf8;
use vstd::utf8::valid_utf8;

use crate::convert::StringUtil;
use crate::err::NfError;
use crate::err::NfResult;
use crate::json;
use crate::wire;

verus! {

/// A frame body is an opaque byte buffer.
pub type NfBuff = Vec<u8>;

/// The only protocol version this implementation speaks.
pub const PROTOCOL_HEAD_VERSION: u8 = 0x01;

/// Number of bytes in an encoded protocol header.
pub const NF_PROTOCOL_HEAD_LENGTH: usize = 14;

/// The closed set of message types. Responses answer the request of the
/// same name; any unknown code decodes to `NoneType`.
#[derive(Debug, Clone, Copy, PartialEq, Eq, Structural)]
pub enum ProtocolHeaderType {
    NoneType,
    ForwardStart,
    ForwardData,
    ForwardEnd,
    ForwardStartRes,
    ForwardDataRes,
    ForwardEndRes,
}

impl ProtocolHeaderType {
    /// The wire code of this message type; a response code is its request
    /// code plus 0x80.
    pub open spec fn spec_code(self) -> u8 {
        match self {
            ProtocolHeaderType::NoneType => 0x00,
            ProtocolHeaderType::ForwardStart => 0x01,
            ProtocolHeaderType::ForwardData => 0x02,
            ProtocolHeaderType::ForwardEnd => 0x03,
            ProtocolHeaderType::ForwardStartRes => 0x81,
            ProtocolHeaderType::ForwardDataRes => 0x82,
            ProtocolHeaderType::ForwardEndRes => 0x83,
        }
    }

    /// The message type a wire code denotes; unknown codes denote
    /// `NoneType`.
    pub open spec fn spec_from_code(value: u8) -> ProtocolHeaderType {
        if value == 0x01 {
            ProtocolHeaderType::ForwardStart
        } else if value == 0x02 {
            ProtocolHeaderType::ForwardData
        } else if value == 0x03 {
            ProtocolHeaderType::ForwardEnd
        } else if value == 0x81 {
            ProtocolHeaderType::ForwardStartRes
        } else if value == 0x82 {
            ProtocolHeaderType::ForwardDataRes
        } else if value == 0x83 {
            ProtocolHeaderType::ForwardEndRes
        } else {
            ProtocolHeaderType::NoneType
        }
    }

    /// Returns the wire code of this message type.
    pub fn code(&self) -> (r: u8)
        ensures
            r == self.spec_code(),
    {
        match self {
            ProtocolHeaderType::NoneType => 0x00,
            ProtocolHeaderType::ForwardStart => 0x01,
            ProtocolHeaderType::ForwardData => 0x02,
            ProtocolHeaderType::ForwardEnd => 0x03,
            ProtocolHeaderType::ForwardStartRes => 0x81,
            ProtocolHeaderType::ForwardDataRes => 0x82,
            ProtocolHeaderType::ForwardEndRes => 0x83,
        }
    }

    /// Returns the message type a wire code denotes.
    pub fn from_code(value: u8) -> (r: ProtocolHeaderType)
        ensures
            r == Self::spec_from_code(value),
    {
        if value == 0x01 {
            ProtocolHeaderType::ForwardStart
        } else if value == 0x02 {
            ProtocolHeaderType::ForwardData
        } else if value == 0x03 {
            ProtocolHeaderType::ForwardEnd
        } else if value == 0x81 {
            ProtocolHeaderType::ForwardStartRes
        } else if value == 0x82 {
            ProtocolHeaderType::ForwardDataRes
        } else if value == 0x83 {
            ProtocolHeaderType::ForwardEndRes
        } else {
            ProtocolHeaderType::NoneType
        }
    }
}

/// Decoding a message type's wire code yields the type again.
pub proof fn lemma_type_code_round_trip(t: ProtocolHeaderType)
    ensures
        ProtocolHeaderType::spec_from_code(t.spec_code()) == t,
{
}

/// The fixed-size frame header. The two length fields state exactly how
/// many args and body bytes follow the header on the wire.
#[derive(Debug, Clone, Copy)]
pub struct ProtocolHeader {
    pub version: u8,
    pub p_type: ProtocolHeaderType,
    pub args_len: u32,
    pub body_len: u64,
}

impl ProtocolHeader {
    /// The 14 bytes of this header on the wire: version, type code, args
    /// length and body length, the lengths big-endian.
    pub open spec fn spec_bytes(self) -> Seq<u8> {
        seq![self.version, self.p_type.spec_code()] + wire::spec_u32_to_be_bytes(self.args_len)
            + wire::spec_u64_to_be_bytes(self.body_len)
    }

    /// The header denoted by the first 14 bytes of `b`.
    pub open spec fn spec_parse(b: Seq<u8>) -> ProtocolHeader
        recommends
            b.len() >= 14,
    {
        ProtocolHeader {
            version: b[0],
            p_type: ProtocolHeaderType::spec_from_code(b[1]),
            args_len: wire::spec_u32_from_be_bytes(b.subrange(2, 6)),
            body_len: wire::spec_u64_from_be_bytes(b.subrange(6, 14)),
        }
    }

    /// Encodes this header into its 14 wire bytes.
    pub fn to_bytes(&self) -> (r: Vec<u8>)
        ensures
            r@ == self.spec_bytes(),
            r@.len() == 14,
    {
        let mut out: Vec<u8> = Vec::new();
        out.push(self.version);
        out.push(self.p_type.code());
        wire::push_u32_be(&mut out, self.args_len);
        wire::push_u64_be(&mut out, self.body_len);
        proof {
            wire::lemma_u32_be_bytes_round_trip();
            wire::lemma_u64_be_bytes_round_trip();
            assert(out@ =~= self.spec_bytes());
        }
        out
    }

    /// Decodes a header from the first 14 bytes of `buff`; fails when
    /// fewer bytes are available.
    pub fn try_from_bytes(buff: &Vec<u8>) -> (r: NfResult<ProtocolHeader>)
        ensures
            buff@.len() >= 14 ==> (r matches Ok(h) && h == Self::spec_parse(buff@)),
            buff@.len() < 14 ==> r is Err,
    {
        let length = buff.len();
        if length < NF_PROTOCOL_HEAD_LENGTH {
            return Err(
                NfError::E(String::from_str("the protocol buff is shorter than one header.")),
            );
        }
        let args_len = wire::read_u32_be(buff, 2);
        let body_len = wire::read_u64_be(buff, 6);
        Ok(
            ProtocolHeader {
                version: buff[0],
                p_type: ProtocolHeaderType::from_code(buff[1]),
                args_len,
                body_len,
            },
        )
    }
}

/// Parsing the first 14 bytes of a buffer that starts with an encoded
/// header yields that header again.
pub proof fn lemma_header_round_trip(h: ProtocolHeader, b: Seq<u8>)
    requires
        b.len() >= 14,
        b.subrange(0, 14) == h.spec_bytes(),
    ensures
        ProtocolHeader::spec_parse(b) == h,
{
    wire::lemma_u32_be_bytes_round_trip();
    wire::lemma_u64_be_bytes_round_trip();
    let hb = h.spec_bytes();
    assert forall|k: int| 0 <= k < 14 implies b[k] == hb[k] by {
        assert(b.subrange(0, 14)[k] == b[k]);
    }
    assert(b[0] == h.version);
    assert(b[1] == h.p_type.spec_code());
    lemma_type_code_round_trip(h.p_type);
    assert(b.subrange(2, 6) =~= wire::spec_u32_to_be_bytes(h.args_len)) by {
        assert forall|k: int| 0 <= k < 4 implies b.subrange(2, 6)[k] == wire::spec_u32_to_be_bytes(
            h.args_len,
        )[k] by {
            assert(b.subrange(2, 6)[k] == b[2 + k]);
            assert(hb[2 + k] == (seq![h.version, h.p_type.spec_code()]
                + wire::spec_u32_to_be_bytes(h.args_len) + wire::spec_u64_to_be_bytes(
                h.body_len,
            ))[2 + k]);
        }
    }
    assert(b.subrange(6, 14) =~= wire::spec_u64_to_be_bytes(h.body_len)) by {
        assert forall|k: int| 0 <= k < 8 implies b.subrange(6, 14)[k] == wire::spec_u64_to_be_bytes(
            h.body_len,
        )[k] by {
            assert(b.subrange(6, 14)[k] == b[6 + k]);
            assert(hb[6 + k] == (seq![h.version, h.p_type.spec_code()]
                + wire::spec_u32_to_be_bytes(h.args_len) + wire::spec_u64_to_be_bytes(
                h.body_len,
            ))[6 + k]);
        }
    }
}

/// The payload of a handshake frame: the informational target address and
/// the ordered list of remaining hop addresses.
#[derive(Debug, Clone)]
pub struct ProtocolForwardStartArgs {
    pub target_address: String,
    pub link_address: Vec<String>,
}

impl ProtocolForwardStartArgs {
    /// The hop addresses of this payload, each as its UTF-8 bytes.
    pub open spec fn spec_links_bytes(self) -> Seq<Seq<u8>> {
        Seq::new(self.link_address@.len(), |k: int| encode_utf8(self.link_address@[k]@))
    }

    /// The JSON encoding of this payload on the wire.
    pub open spec fn spec_json_bytes(self) -> Seq<u8> {
        json::spec_fsa_json(encode_utf8(self.target_address@), self.spec_links_bytes())
    }

    /// Encodes this payload as JSON.
    pub fn to_json_bytes(&self) -> (r: Vec<u8>)
        ensures
            r@ == self.spec_json_bytes(),
    {
        let mut links_bytes: Vec<Vec<u8>> = Vec::new();
        let n = self.link_address.len();
        let mut k: usize = 0;
        while k < n
            invariant
                n == self.link_address@.len(),
                k <= n,
                links_bytes@.len() == k,
                forall|q: int| 0 <= q < k ==> links_bytes@[q]@ == encode_utf8(
                    self.link_address@[q]@,
                ),
            decreases n - k,
        {
            links_bytes.push(self.link_address[k].as_str().as_bytes_vec());
            k = k + 1;
        }
        let mut out: Vec<u8> = Vec::new();
        let tb = self.target_address.as_str().as_bytes_vec();
        json::encode_fsa_into(&mut out, tb.as_slice(), &links_bytes);
        proof {
            assert(json::spec_vecs_view(links_bytes@) =~= self.spec_links_bytes());
        }
        out
    }

    /// True when the bytes hold a complete handshake JSON object whose
    /// target and hop addresses are all valid UTF-8.
    pub open spec fn spec_decodable(b: Seq<u8>) -> bool {
        match json::spec_parse_fsa(b) {
            Some((t, ls)) => valid_utf8(t) && (forall|k: int|
                0 <= k < ls.len() ==> valid_utf8(#[trigger] ls[k])),
            None => false,
        }
    }

    /// Decodes a handshake payload from its JSON bytes; fails exactly when
    /// the bytes are not one well-formed handshake object of valid UTF-8
    /// strings.
    pub fn from_json_bytes(b: &Vec<u8>) -> (r: NfResult<ProtocolForwardStartArgs>)
        ensures
            r matches Ok(a) ==> (json::spec_parse_fsa(b@) matches Some((t, ls))
                && encode_utf8(a.target_address@) == t && a.link_address@.len() == ls.len() && (
            forall|k: int| 0 <= k < ls.len() ==> encode_utf8(a.link_address@[k]@) == ls[k])),
            r is Ok <==> Self::spec_decodable(b@),
    {
        let parsed = match json::parse_fsa_bytes(b) {
            Ok(p) => p,
            Err(e) => {
                return Err(e);
            },
        };
        let (tb, lsb) = parsed;
        let target_address = match StringUtil::string_from_utf8(tb) {
            Ok(t) => t,
            Err(e) => {
                return Err(e);
            },
        };
        let mut link_address: Vec<String> = Vec::new();
        let n = lsb.len();
        let mut k: usize = 0;
        while k < n
            invariant
                n == lsb@.len(),
                k <= n,
                link_address@.len() == k,
                json::spec_parse_fsa(b@) matches Some((t, ls)) && ls.len() == n && (forall|q: int|
                    0 <= q < n ==> lsb@[q]@ == ls[q]) && (forall|q: int|
                    0 <= q < k ==> encode_utf8(link_address@[q]@) == ls[q]),
            decreases n - k,
        {
            let piece = crate::json::copy_range(&lsb[k], 0, lsb[k].len());
            proof {
                assert(piece@ =~= lsb@[k as int]@);
            }
            let sp = match StringUtil::string_from_utf8(piece) {
                Ok(t) => t,
                Err(e) => {
                    proof {
                        match json::spec_parse_fsa(b@) {
                            Some((t2, ls2)) => {
                                assert(!valid_utf8(ls2[k as int]));
                            },
                            None => {},
                        }
                    }
                    return Err(e);
                },
            };
            link_address.push(sp);
            k = k + 1;
        }
        proof {
            match json::spec_parse_fsa(b@) {
                Some((t2, ls2)) => {
                    vstd::utf8::encode_utf8_valid_utf8(target_address@);
                    assert forall|q: int| 0 <= q < ls2.len() implies valid_utf8(
                        #[trigger] ls2[q],
                    ) by {
                        vstd::utf8::encode_utf8_valid_utf8(link_address@[q]@);
                    }
                },
                None => {},
            }
        }
        Ok(ProtocolForwardStartArgs { target_address, link_address })
    }
}

/// The args of a frame: an opaque string for most frames, a handshake
/// payload for `ForwardStart`.
#[derive(Debug, Clone)]
pub enum ProtocolArgs {
    Str(String),
    ForwardStart(ProtocolForwardStartArgs),
}

impl ProtocolArgs {
    /// The bytes these args occupy on the wire.
    pub open spec fn spec_bytes(self) -> Seq<u8> {
        match self {
            ProtocolArgs::Str(s) => encode_utf8(s@),
            ProtocolArgs::ForwardStart(a) => a.spec_json_bytes(),
        }
    }

    /// Encodes these args into their wire bytes.
    pub fn to_bytes(&self) -> (r: Vec<u8>)
        ensures
            r@ == self.spec_bytes(),
    {
        match self {
            ProtocolArgs::Str(s) => s.as_str().as_bytes_vec(),
            ProtocolArgs::ForwardStart(a) => a.to_json_bytes(),
        }
    }

    /// Returns the number of bytes these args occupy on the wire.
    pub fn len(&self) -> (r: usize)
        ensures
            r == self.spec_bytes().len(),
    {
        self.to_bytes().len()
    }
}

/// The bytes an optional args value occupies on the wire.
pub open spec fn spec_args_bytes(args: Option<ProtocolArgs>) -> Seq<u8> {
    match args {
        Some(a) => a.spec_bytes(),
        None => Seq::empty(),
    }
}

/// The bytes an optional body occupies on the wire.
pub open spec fn spec_body_bytes(body: Option<NfBuff>) -> Seq<u8> {
    match body {
        Some(b) => b@,
        None => Seq::empty(),
    }
}

/// An optional body, kept only when non-empty.
#[derive(Debug, Clone)]
pub struct ProtocolBody {
    pub body: Vec<u8>,
}

/// One complete protocol frame.
#[derive(Debug, Clone)]
pub struct Protocol {
    pub header: ProtocolHeader,
    pub args: Option<ProtocolArgs>,
    pub body: Option<NfBuff>,
}

impl Protocol {
    /// The header's length fields state exactly how many args and body
    /// bytes the frame carries.
    pub open spec fn wf(self) -> bool {
        &&& self.header.args_len as int == spec_args_bytes(self.args).len()
        &&& self.header.body_len as int == spec_body_bytes(self.body).len()
    }

    /// Builds a frame around the given type, args and body, with the
    /// fixed protocol version and the two length fields filled in.
    pub fn new(p_type: ProtocolHeaderType, args: Option<ProtocolArgs>, body: Option<NfBuff>) -> (r:
        Protocol)
        requires
            spec_args_bytes(args).len() <= u32::MAX,
        ensures
            r.wf(),
            r.header.version == PROTOCOL_HEAD_VERSION,
            r.header.p_type == p_type,
            r.args == args,
            r.body == body,
    {
        let args_len: u32 = match &args {
            Some(a) => a.len() as u32,
            None => 0,
        };
        let body_len: u64 = match &body {
            Some(b) => b.len() as u64,
            None => 0,
        };
        Protocol {
            header: ProtocolHeader { version: PROTOCOL_HEAD_VERSION, p_type, args_len, body_len },
            args,
            body,
        }
    }

    /// The full wire encoding of this frame: header, args, body.
    pub open spec fn spec_frame_bytes(self) -> Seq<u8> {
        self.header.spec_bytes() + spec_args_bytes(self.args) + spec_body_bytes(self.body)
    }

    /// Encodes this frame into its wire bytes.
    pub fn to_bytes(&self) -> (r: Vec<u8>)
        ensures
            r@ == self.spec_frame_bytes(),
    {
        let mut out = self.header.to_bytes();
        match &self.args {
            Some(a) => {
                let ab = a.to_bytes();
                wire::append_bytes(&mut out, ab.as_slice());
            },
            None => {},
        }
        match &self.body {
            Some(b) => {
                wire::append_bytes(&mut out, b.as_slice());
            },
            None => {},
        }
        proof {
            assert(out@ =~= self.spec_frame_bytes());
        }
        out
    }
}

/// Splits a buffer that starts with one complete frame into its header,
/// args bytes, body bytes, and total frame length. `None` when the buffer
/// holds no complete frame.
pub open spec fn spec_parse_frame(b: Seq<u8>) -> Option<(ProtocolHeader, Seq<u8>, Seq<u8>, int)> {
    if b.len() < 14 {
        None
    } else {
        let h = ProtocolHeader::spec_parse(b);
        let alen = h.args_len as int;
        let blen = h.body_len as int;
        if 14 + alen + blen <= b.len() {
            Some((h, b.subrange(14, 14 + alen), b.subrange(14 + alen, 14 + alen + blen), 14 + alen + blen))
        } else {
            None
        }
    }
}

/// How a frame's decoded args relate to its args bytes: absent when there
/// are none, a decoded handshake payload for `ForwardStart`, an opaque
/// string otherwise.
pub open spec fn spec_args_match(
    t: ProtocolHeaderType,
    ab: Seq<u8>,
    args: Option<ProtocolArgs>,
) -> bool {
    if ab.len() == 0 {
        args is None
    } else {
        match t {
            ProtocolHeaderType::ForwardStart => args matches Some(ProtocolArgs::ForwardStart(a))
                && (json::spec_parse_fsa(ab) matches Some((tb, ls)) && encode_utf8(
                a.target_address@,
            ) == tb && a.link_address@.len() == ls.len() && (forall|k: int|
                0 <= k < ls.len() ==> encode_utf8(a.link_address@[k]@) == ls[k])),
            _ => args matches Some(ProtocolArgs::Str(s)) && encode_utf8(s@) == ab,
        }
    }
}

/// True when a frame's args bytes decode under its message type: handshake
/// frames need a well-formed handshake object, all others valid UTF-8.
pub open spec fn spec_args_ok(t: ProtocolHeaderType, ab: Seq<u8>) -> bool {
    if ab.len() == 0 {
        true
    } else {
        match t {
            ProtocolHeaderType::ForwardStart => ProtocolForwardStartArgs::spec_decodable(ab),
            _ => valid_utf8(ab),
        }
    }
}

impl Protocol {
    /// Parses one complete frame from the front of `buff`: the 14-byte
    /// header, then exactly as many args and body bytes as it names. The
    /// returned count says how many bytes the frame occupied. Fails when
    /// the buffer holds no complete frame, when non-handshake args are not
    /// valid UTF-8, or when handshake args are not one well-formed
    /// handshake object.
    pub fn from_bytes(buff: &Vec<u8>) -> (r: NfResult<(Protocol, usize)>)
        ensures
            r matches Ok((p, n)) ==> (spec_parse_frame(buff@) matches Some((h, ab, bb, nn))
                && p.header == h && nn == n && spec_args_match(h.p_type, ab, p.args)
                && spec_body_bytes(p.body) == bb && (bb.len() == 0 ==> p.body is None) && (bb.len()
                > 0 ==> p.body is Some)),
            r is Ok <==> (spec_parse_frame(buff@) matches Some((h, ab, bb, nn)) && spec_args_ok(
                h.p_type,
                ab,
            )),
    {
        let n = buff.len();
        let header = match ProtocolHeader::try_from_bytes(buff) {
            Ok(h) => h,
            Err(e) => {
                return Err(e);
            },
        };
        let alen64: u64 = header.args_len as u64;
        let blen64: u64 = header.body_len;
        let rem: u64 = (n - 14) as u64;
        if alen64 > rem || blen64 > rem - alen64 {
            return Err(
                NfError::IoError(String::from_str("the protocol buff does not hold one complete frame.")),
            );
        }
        let alen: usize = header.args_len as usize;
        let blen: usize = header.body_len as usize;
        let args_bytes = json::copy_range(buff, 14, 14 + alen);
        let args: Option<ProtocolArgs> = if alen == 0 {
            None
        } else {
            match header.p_type {
                ProtocolHeaderType::ForwardStart => {
                    match ProtocolForwardStartArgs::from_json_bytes(&args_bytes) {
                        Ok(a) => Some(ProtocolArgs::ForwardStart(a)),
                        Err(_) => {
                            return Err(NfError::E(String::from_str("parse protocol arg failed.")));
                        },
                    }
                },
                _ => {
                    match StringUtil::string_from_utf8(args_bytes) {
                        Ok(s) => Some(ProtocolArgs::Str(s)),
                        Err(_) => {
                            return Err(NfError::E(String::from_str("convert string failed.")));
                        },
                    }
                },
            }
        };
        let body: Option<NfBuff> = if blen == 0 {
            None
        } else {
            Some(json::copy_range(buff, 14 + alen, 14 + alen + blen))
        };
        let p = Protocol { header, args, body };
        proof {
            let bb = buff@.subrange(14 + alen as int, 14 + alen as int + blen as int);
            if blen == 0 {
                assert(spec_body_bytes(p.body) =~= bb);
            }
        }
        Ok((p, 14 + alen + blen))
    }
}


/// A frame fit for the wire: its header lengths match its contents, its
/// args variant matches its message type, and neither args nor body is a
/// present-but-empty value (the wire cannot distinguish those from absent
/// ones).
pub open spec fn spec_frame_consistent(p: Protocol) -> bool {
    &&& p.wf()
    &&& match p.args {
        Some(ProtocolArgs::ForwardStart(a)) => p.header.p_type
            == ProtocolHeaderType::ForwardStart,
        Some(ProtocolArgs::Str(s)) => p.header.p_type != ProtocolHeaderType::ForwardStart
            && encode_utf8(s@).len() > 0,
        None => true,
    }
    &&& match p.body {
        Some(b) => b@.len() > 0,
        None => true,
    }
}

/// Law: writing a frame and reading it back from the same bytes yields the
/// frame again. Parsing the encoding of any consistent frame recovers its
/// header, args bytes and body bytes exactly, consumes the whole
/// encoding, and the frame's own args are a valid decoding of those args
/// bytes; with `lemma_args_match_unique`, any decoded args agree with the
/// original ones.
pub proof fn lemma_frame_round_trip(p: Protocol)
    requires
        spec_frame_consistent(p),
    ensures
        spec_parse_frame(p.spec_frame_bytes()) == Some(
            (
                p.header,
                spec_args_bytes(p.args),
                spec_body_bytes(p.body),
                p.spec_frame_bytes().len() as int,
            ),
        ),
        spec_args_ok(p.header.p_type, spec_args_bytes(p.args)),
        spec_args_match(p.header.p_type, spec_args_bytes(p.args), p.args),
{
    let b = p.spec_frame_bytes();
    let hb = p.header.spec_bytes();
    let ab = spec_args_bytes(p.args);
    let bb = spec_body_bytes(p.body);
    assert(hb.len() == 14);
    assert(b == hb + ab + bb);
    assert forall|k: int| 0 <= k < b.len() implies b[k] == (if k < 14 {
        hb[k]
    } else if k < 14 + ab.len() {
        ab[k - 14]
    } else {
        bb[k - 14 - ab.len()]
    }) by {
        assert(b[k] == (hb + ab + bb)[k]);
    }
    assert(b.subrange(0, 14) =~= hb);
    lemma_header_round_trip(p.header, b);
    let alen = p.header.args_len as int;
    let blen = p.header.body_len as int;
    assert(alen == ab.len() && blen == bb.len());
    assert(b.subrange(14, 14 + alen) =~= ab);
    assert(b.subrange(14 + alen, 14 + alen + blen) =~= bb);
    match p.args {
        None => {},
        Some(ProtocolArgs::Str(s)) => {
            vstd::utf8::encode_utf8_valid_utf8(s@);
        },
        Some(ProtocolArgs::ForwardStart(a)) => {
            json::lemma_parse_fsa_of_encoded(
                encode_utf8(a.target_address@),
                a.spec_links_bytes(),
            );
            vstd::utf8::encode_utf8_valid_utf8(a.target_address@);
            assert forall|k: int| 0 <= k < a.spec_links_bytes().len() implies valid_utf8(
                #[trigger] a.spec_links_bytes()[k],
            ) by {
                vstd::utf8::encode_utf8_valid_utf8(a.link_address@[k]@);
            }
        },
    }
}

/// Law: a frame's args bytes determine its decoded args up to their
/// views. Two decodings of the same args bytes under the same message
/// type carry the same strings.
pub proof fn lemma_args_match_unique(
    t: ProtocolHeaderType,
    ab: Seq<u8>,
    a1: Option<ProtocolArgs>,
    a2: Option<ProtocolArgs>,
)
    requires
        spec_args_match(t, ab, a1),
        spec_args_match(t, ab, a2),
    ensures
        a1 is None <==> a2 is None,
        a1 matches Some(ProtocolArgs::Str(s1)) ==> (a2 matches Some(ProtocolArgs::Str(s2)) && s1@
            == s2@),
        a1 matches Some(ProtocolArgs::ForwardStart(f1)) ==> (a2 matches Some(
            ProtocolArgs::ForwardStart(f2),
        ) && f1.target_address@ == f2.target_address@ && f1.link_address@.len()
            == f2.link_address@.len() && (forall|k: int|
            0 <= k < f1.link_address@.len() ==> f1.link_address@[k]@ == f2.link_address@[k]@)),
{
    if ab.len() == 0 {
    } else {
        match t {
            ProtocolHeaderType::ForwardStart => {
                match (a1, a2) {
                    (
                        Some(ProtocolArgs::ForwardStart(f1)),
                        Some(ProtocolArgs::ForwardStart(f2)),
                    ) => {
                        vstd::utf8::encode_utf8_decode_utf8(f1.target_address@);
                        vstd::utf8::encode_utf8_decode_utf8(f2.target_address@);
                        assert forall|k: int| 0 <= k < f1.link_address@.len() implies
                            f1.link_address@[k]@ == f2.link_address@[k]@ by {
                            match json::spec_parse_fsa(ab) {
                                Some((tb, ls)) => {
                                    assert(encode_utf8(f1.link_address@[k]@) == ls[k]);
                                    assert(encode_utf8(f2.link_address@[k]@) == ls[k]);
                                    vstd::utf8::encode_utf8_decode_utf8(f1.link_address@[k]@);
                                    vstd::utf8::encode_utf8_decode_utf8(f2.link_address@[k]@);
                                },
                                None => {},
                            }
                        }
                    },
                    _ => {},
                }
            },
            _ => {
                match (a1, a2) {
                    (Some(ProtocolArgs::Str(s1)), Some(ProtocolArgs::Str(s2))) => {
                        vstd::utf8::encode_utf8_decode_utf8(s1@);
                        vstd::utf8::encode_utf8_decode_utf8(s2@);
                    },
                    _ => {},
                }
            },
        }
    }
}


/// The status envelope carried by a handshake acknowledgement: a code
/// (zero on success), a human-readable message, and the raw bytes of one
/// opaque JSON value.
#[derive(Debug, Clone)]
pub struct Data {
    pub code: i32,
    pub msg: String,
    pub data: Vec<u8>,
}

impl Default for Data {
    /// A success envelope: code zero, empty message, null data.
    fn default() -> (r: Data)
        ensures
            r.code == 0,
            r.msg@ == Seq::<char>::empty(),
            r.data@ == seq![0x6eu8, 0x75u8, 0x6cu8, 0x6cu8],
    {
        let mut data: Vec<u8> = Vec::new();
        data.push(0x6e);
        data.push(0x75);
        data.push(0x6c);
        data.push(0x6c);
        proof {
            assert(data@ =~= seq![0x6eu8, 0x75u8, 0x6cu8, 0x6cu8]);
        }
        Data { code: 0, msg: String::new(), data }
    }
}

impl Data {
    /// Records a failure: sets the code and message, leaving the data
    /// value untouched.
    pub fn update_error(&mut self, code: i32, msg: String)
        ensures
            final(self).code == code,
            final(self).msg == msg,
            final(self).data == old(self).data,
    {
        self.code = code;
        self.msg = msg;
    }

    /// The JSON encoding of this envelope on the wire.
    pub open spec fn spec_json_bytes(self) -> Seq<u8> {
        json::spec_status_json(self.code as int, encode_utf8(self.msg@), self.data@)
    }

    /// Encodes this envelope as JSON.
    pub fn to_json_bytes(&self) -> (r: Vec<u8>)
        ensures
            r@ == self.spec_json_bytes(),
    {
        let mut out: Vec<u8> = Vec::new();
        let mb = self.msg.as_str().as_bytes_vec();
        json::encode_status_into(&mut out, self.code, mb.as_slice(), self.data.as_slice());
        out
    }

    /// True when the bytes hold a complete status object whose code fits
    /// an `i32` and whose message is valid UTF-8.
    pub open spec fn spec_decodable(b: Seq<u8>) -> bool {
        match json::spec_parse_status(b) {
            Some((v, m, d)) => i32::MIN <= v <= i32::MAX && valid_utf8(m),
            None => false,
        }
    }

    /// Decodes a status envelope from its JSON bytes; fails exactly when
    /// the bytes are not one well-formed status object with an `i32` code
    /// and a valid UTF-8 message.
    pub fn from_json_bytes(b: &Vec<u8>) -> (r: NfResult<Data>)
        ensures
            r matches Ok(d) ==> (json::spec_parse_status(b@) matches Some((v, m, dd)) && d.code
                as int == v && encode_utf8(d.msg@) == m && d.data@ == dd),
            r is Ok <==> Self::spec_decodable(b@),
    {
        let parsed = match json::parse_status_bytes(b) {
            Ok(p) => p,
            Err(e) => {
                return Err(e);
            },
        };
        let (code, mbytes, dbytes) = parsed;
        let msg = match StringUtil::string_from_utf8(mbytes) {
            Ok(m) => m,
            Err(e) => {
                return Err(e);
            },
        };
        Ok(Data { code, msg, data: dbytes })
    }
}


/// Law: the acknowledgement envelopes this library creates — their data
/// value is always the `null` literal — survive the trip through their
/// JSON encoding: parsing the encoding yields the code, message and data
/// back, and decoding cannot fail.
pub proof fn lemma_status_envelope_round_trip(d: Data)
    requires
        d.data@ == seq![0x6eu8, 0x75u8, 0x6cu8, 0x6cu8],
    ensures
        json::spec_parse_status(d.spec_json_bytes()) == Some(
            (d.code as int, encode_utf8(d.msg@), d.data@),
        ),
        Data::spec_decodable(d.spec_json_bytes()),
{
    json::lemma_parse_status_of_encoded(d.code as int, encode_utf8(d.msg@));
    vstd::utf8::encode_utf8_valid_utf8(d.msg@);
}

} // verus!
