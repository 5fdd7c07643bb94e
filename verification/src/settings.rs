//! Process-lifetime configuration: the listen address, the static hop
//! list, and the payload crypto selection.
use vstd::prelude::*;
use vstd::utf8::encode_utf8;
use vstd::utf8::valid_utf8;
use vstd::utf8::is_char_boundary;
use vstd::utf8::is_continuation_byte;

use crate::convert::StringUtil;
use crate::err::NfError;

verus! {

/// The fixed initialization vector used for AES-256-CBC: a build-time
/// constant of exactly sixteen ASCII characters.
pub const DEFAULT_AES_IV: &'static str = "qwertyuiopASDFGH";

#[derive(Debug, Clone)]
pub struct RunClientParam {
    pub link_address: String,
}

#[derive(Debug, Clone)]
pub struct RunServerParam {
    /// The local address the node listens on.
    pub listen_address: String,
    /// The static hop list; empty selects handshake-driven mode.
    pub link_nodes: Vec<String>,
    /// The payload crypto applied at plain/framed boundaries.
    pub crypt: SupportCrypt,
}

#[derive(Debug, Clone)]
pub struct Rc4Param {
    pub key: String,
}

impl Rc4Param {
    /// An RC4 key must encode to between 1 and 256 bytes.
    pub open spec fn wf(self) -> bool {
        1 <= encode_utf8(self.key@).len() <= 256
    }
}

#[derive(Debug, Clone)]
pub struct AesParam {
    pub key: String,
    pub iv: String,
}

impl AesParam {
    /// An AES-256 key must encode to exactly 32 bytes, the IV to 16.
    pub open spec fn wf(self) -> bool {
        encode_utf8(self.key@).len() == 32 && encode_utf8(self.iv@).len() == 16
    }
}

/// The supported payload transforms.
#[derive(Debug, Clone)]
pub enum SupportCrypt {
    /// No transform: payloads pass through unchanged.
    Plain,
    Rc4(Rc4Param),
    Aes(AesParam),
}

impl SupportCrypt {
    pub open spec fn wf(self) -> bool {
        match self {
            SupportCrypt::Plain => true,
            SupportCrypt::Rc4(p) => p.wf(),
            SupportCrypt::Aes(p) => p.wf(),
        }
    }
}

#[derive(Debug, Clone)]
pub struct NfParam {
    pub config: Option<String>,
    pub listen: String,
    pub link_nodes: Vec<String>,
    pub crypt: SupportCrypt,
    pub log_level: String,
}

// ---------------------------------------------------------------------------
// Splitting a comma-separated hop list
// ---------------------------------------------------------------------------
/// The position of the first comma at or after `i`, or the length of `b`.
pub open spec fn spec_find_sep(b: Seq<u8>, i: int) -> int
    decreases b.len() - i,
    when 0 <= i <= b.len()
{
    if i >= b.len() {
        i
    } else if b[i] == 0x2c {
        i
    } else {
        spec_find_sep(b, i + 1)
    }
}

/// The first comma search stays between its start and the buffer end, lands
/// on a comma unless it reaches the end, and skips no comma.
pub proof fn lemma_find_sep_props(b: Seq<u8>, i: int)
    requires
        0 <= i <= b.len(),
    ensures
        i <= spec_find_sep(b, i) <= b.len(),
        spec_find_sep(b, i) < b.len() ==> b[spec_find_sep(b, i)] == 0x2c,
        forall|q: int| i <= q < spec_find_sep(b, i) ==> b[q] != 0x2c,
    decreases b.len() - i,
{
    if i < b.len() && b[i] != 0x2c {
        lemma_find_sep_props(b, i + 1);
    }
}

/// The pieces of `b` from `start` on, split at commas. A trailing comma
/// yields a final empty piece, and an empty input yields one empty piece.
pub open spec fn spec_split_from(b: Seq<u8>, start: int) -> Seq<Seq<u8>>
    decreases b.len() - start,
    when 0 <= start <= b.len()
    via spec_split_from_dec
{
    let p = spec_find_sep(b, start);
    if p == b.len() {
        seq![b.subrange(start, b.len() as int)]
    } else {
        seq![b.subrange(start, p)] + spec_split_from(b, p + 1)
    }
}

#[via_fn]
proof fn spec_split_from_dec(b: Seq<u8>, start: int) {
    lemma_find_sep_props(b, start);
}

/// The comma-separated pieces of a whole byte sequence.
pub open spec fn spec_split_bytes(b: Seq<u8>) -> Seq<Seq<u8>> {
    spec_split_from(b, 0)
}

/// Splits a comma-separated list of addresses into its pieces. Each
/// returned string holds the bytes of one piece of the input.
pub fn split_link_nodes(s: &str) -> (r: Vec<String>)
    ensures
        r@.len() == spec_split_bytes(encode_utf8(s@)).len(),
        forall|k: int| 0 <= k < r@.len() ==> encode_utf8(r@[k]@) == spec_split_bytes(
            encode_utf8(s@),
        )[k],
{
    let bytes = s.as_bytes_vec();
    let ghost full = bytes@;
    proof {
        vstd::utf8::encode_utf8_valid_utf8(s@);
        vstd::utf8::is_char_boundary_start_end_of_seq(full);
    }
    let n = bytes.len();
    let mut out: Vec<String> = Vec::new();
    let mut start: usize = 0;
    loop
        invariant
            full == bytes@,
            full == encode_utf8(s@),
            valid_utf8(full),
            n == full.len(),
            start <= n,
            is_char_boundary(full, start as int),
            out@.len() + spec_split_from(full, start as int).len() == spec_split_bytes(full).len(),
            forall|k: int| 0 <= k < out@.len() ==> encode_utf8(out@[k]@) == spec_split_bytes(full)[k],
            forall|k: int| 0 <= k < spec_split_from(full, start as int).len() ==> spec_split_bytes(
                full,
            )[out@.len() + k] == spec_split_from(full, start as int)[k],
        decreases n - start + 1,
    {
        // find the next comma
        let mut p: usize = start;
        while p < n && bytes[p] != 0x2c
            invariant
                full == bytes@,
                n == full.len(),
                start <= p <= n,
                spec_find_sep(full, start as int) == spec_find_sep(full, p as int),
            decreases n - p,
        {
            p = p + 1;
        }
        proof {
            assert(spec_find_sep(full, p as int) == p);
            lemma_find_sep_props(full, start as int);
        }
        let piece = crate::json::copy_range(&bytes, start, p);
        proof {
            // the piece between two character boundaries is valid UTF-8
            vstd::utf8::valid_utf8_split(full, start as int);
            let suffix = full.subrange(start as int, n as int);
            if p < n {
                assert(suffix[p - start] == full[p as int]);
                assert(!is_continuation_byte(suffix[p - start]));
                vstd::utf8::is_char_boundary_iff_not_is_continuation_byte(suffix, p - start);
                vstd::utf8::valid_utf8_split(suffix, p - start);
                assert(suffix.subrange(0, p - start) =~= full.subrange(start as int, p as int));
            } else {
                assert(suffix =~= full.subrange(start as int, p as int));
            }
            assert(valid_utf8(piece@));
        }
        let sp = match StringUtil::string_from_utf8(piece) {
            Ok(t) => t,
            Err(_) => {
                proof {
                    // the piece was shown above to be valid UTF-8
                    assert(false);
                }
                return out;
            },
        };
        let ghost out_pre = out@;
        out.push(sp);
        if p == n {
            proof {
                assert(spec_split_from(full, start as int) =~= seq![
                    full.subrange(start as int, n as int),
                ]);
                assert forall|k: int| 0 <= k < out@.len() implies encode_utf8(out@[k]@)
                    == spec_split_bytes(full)[k] by {
                    if k == out_pre.len() {
                        assert(spec_split_bytes(full)[k] == spec_split_from(full, start as int)[0]);
                    } else {
                        assert(out@[k] == out_pre[k]);
                    }
                }
            }
            return out;
        }
        proof {
            assert(full[p as int] == 0x2c);
            assert(spec_split_from(full, start as int) == seq![
                full.subrange(start as int, p as int),
            ] + spec_split_from(full, p + 1));
            assert forall|k: int| 0 <= k < out@.len() implies encode_utf8(out@[k]@)
                == spec_split_bytes(full)[k] by {
                if k == out_pre.len() {
                    assert(spec_split_bytes(full)[k] == spec_split_from(full, start as int)[0]);
                    assert(spec_split_from(full, start as int)[0] == full.subrange(
                        start as int,
                        p as int,
                    ));
                } else {
                    assert(out@[k] == out_pre[k]);
                }
            }
            assert forall|k: int| 0 <= k < spec_split_from(full, p + 1).len() implies
                spec_split_bytes(full)[out@.len() + k] == #[trigger] spec_split_from(full, p + 1)[k] by {
                assert(spec_split_from(full, start as int)[k + 1] == spec_split_from(full, p + 1)[k]);
                assert(spec_split_bytes(full)[out_pre.len() + (k + 1)] == spec_split_from(
                    full,
                    start as int,
                )[k + 1]);
            }
            // the byte after a comma starts a character: a comma is a
            // complete one-byte character
            vstd::utf8::is_char_boundary_iff_not_is_continuation_byte(full, p as int);
            assert(is_char_boundary(full, p as int));
            vstd::utf8::valid_utf8_split(full, p as int);
            let tail = full.subrange(p as int, n as int);
            assert(tail[0] == 0x2c);
            assert(vstd::utf8::is_leading_byte_width_1(tail[0]));
            assert(vstd::utf8::length_of_first_scalar(tail) == 1);
            assert(is_char_boundary(vstd::utf8::pop_first_scalar(tail), 0));
            assert(is_char_boundary(tail, 1));
            if p + 1 < n {
                vstd::utf8::is_char_boundary_iff_not_is_continuation_byte(tail, 1);
                assert(!is_continuation_byte(tail[1]));
                assert(tail[1] == full[p + 1]);
                vstd::utf8::is_char_boundary_iff_not_is_continuation_byte(full, p + 1);
                assert(is_char_boundary(full, p + 1));
            } else {
                vstd::utf8::is_char_boundary_start_end_of_seq(full);
            }
        }
        start = p + 1;
    }
}


// ---------------------------------------------------------------------------
// Selecting the payload crypto and assembling the run parameters
// ---------------------------------------------------------------------------
/// An ASCII uppercase letter folded to lowercase; other bytes unchanged.
pub open spec fn spec_lower_byte(c: u8) -> u8 {
    if 0x41 <= c <= 0x5a {
        (c + 0x20) as u8
    } else {
        c
    }
}

/// The byte-wise ASCII lowercase fold of a byte sequence.
pub open spec fn spec_lower_bytes(b: Seq<u8>) -> Seq<u8> {
    b.map_values(|c: u8| spec_lower_byte(c))
}

/// Compares the lowercase fold of `s` against three literal bytes.
fn lower3_eq(s: &str, c0: u8, c1: u8, c2: u8) -> (r: bool)
    ensures
        r == (spec_lower_bytes(encode_utf8(s@)) == seq![c0, c1, c2]),
{
    let b = s.as_bytes_vec();
    let ghost lit = seq![c0, c1, c2];
    let ghost low = spec_lower_bytes(b@);
    proof {
        assert(low.len() == b@.len());
    }
    if b.len() != 3 {
        return false;
    }
    let l0 = lower_byte(b[0]);
    let l1 = lower_byte(b[1]);
    let l2 = lower_byte(b[2]);
    let r = l0 == c0 && l1 == c1 && l2 == c2;
    proof {
        assert(low[0] == spec_lower_byte(b@[0]) && low[1] == spec_lower_byte(b@[1]) && low[2]
            == spec_lower_byte(b@[2]));
        if r {
            assert(low =~= lit);
        }
    }
    r
}

/// Folds one ASCII uppercase letter to lowercase.
fn lower_byte(c: u8) -> (r: u8)
    ensures
        r == spec_lower_byte(c),
{
    if 0x41 <= c && c <= 0x5a {
        c + 0x20
    } else {
        c
    }
}

/// The crypto selection the command line asks for: RC4 or AES when both a
/// known algorithm name and a key are given, otherwise no transform.
pub open spec fn spec_crypt_choice_matches(
    crypt_opt: Option<String>,
    key_opt: Option<String>,
    c: SupportCrypt,
) -> bool {
    match (crypt_opt, key_opt) {
        (Some(name), Some(key)) => {
            if spec_lower_bytes(encode_utf8(name@)) == seq![0x72u8, 0x63u8, 0x34u8] {
                c == SupportCrypt::Rc4(Rc4Param { key })
            } else if spec_lower_bytes(encode_utf8(name@)) == seq![0x61u8, 0x65u8, 0x73u8] {
                c matches SupportCrypt::Aes(p) && p.key == key && p.iv@ == DEFAULT_AES_IV@
            } else {
                c == SupportCrypt::Plain
            }
        },
        _ => c == SupportCrypt::Plain,
    }
}

/// True when the selected algorithm's key has an acceptable length: RC4
/// takes 1 to 256 key bytes, AES-256 exactly 32.
pub open spec fn spec_crypt_key_ok(crypt_opt: Option<String>, key_opt: Option<String>) -> bool {
    match (crypt_opt, key_opt) {
        (Some(name), Some(key)) => {
            if spec_lower_bytes(encode_utf8(name@)) == seq![0x72u8, 0x63u8, 0x34u8] {
                1 <= encode_utf8(key@).len() <= 256
            } else if spec_lower_bytes(encode_utf8(name@)) == seq![0x61u8, 0x65u8, 0x73u8] {
                encode_utf8(key@).len() == 32
            } else {
                true
            }
        },
        _ => true,
    }
}

impl NfParam {
    /// Assembles the run parameters from the resolved command-line values:
    /// the listen address, an optional comma-separated static hop list, an
    /// optional crypto algorithm name with its key, and the debug flag.
    /// Fails exactly when the selected algorithm's key has a wrong length.
    pub fn parse_server(
        listen: String,
        link_nodes_opt: Option<String>,
        crypt_opt: Option<String>,
        key_opt: Option<String>,
        debug: bool,
    ) -> (r: Result<NfParam, NfError>)
        ensures
            r is Ok <==> spec_crypt_key_ok(crypt_opt, key_opt),
            r matches Ok(p) ==> {
                &&& p.listen == listen
                &&& p.config is None
                &&& p.log_level@ == if debug {
                    "debug"@
                } else {
                    "warn"@
                }
                &&& match link_nodes_opt {
                    Some(l) => p.link_nodes@.len() == spec_split_bytes(encode_utf8(l@)).len()
                        && (forall|k: int|
                        0 <= k < p.link_nodes@.len() ==> encode_utf8(p.link_nodes@[k]@)
                            == spec_split_bytes(encode_utf8(l@))[k]),
                    None => p.link_nodes@.len() == 0,
                }
                &&& spec_crypt_choice_matches(crypt_opt, key_opt, p.crypt)
                &&& p.crypt.wf()
            },
    {
        let link_nodes: Vec<String> = match &link_nodes_opt {
            Some(l) => split_link_nodes(l.as_str()),
            None => Vec::new(),
        };
        let log_level = if debug {
            String::from_str("debug")
        } else {
            String::from_str("warn")
        };
        let crypt: SupportCrypt = match &crypt_opt {
            Some(name) => match &key_opt {
                Some(key) => {
                    if lower3_eq(name.as_str(), 0x72, 0x63, 0x34) {
                        let klen = key.as_bytes_vec().len();
                        if !(1 <= klen && klen <= 256) {
                            return Err(
                                NfError::KeyError(
                                    String::from_str("the rc4 key length must be 1 to 256 bytes."),
                                ),
                            );
                        }
                        SupportCrypt::Rc4(Rc4Param { key: key.clone() })
                    } else if lower3_eq(name.as_str(), 0x61, 0x65, 0x73) {
                        if key.as_bytes_vec().len() != 32 {
                            return Err(
                                NfError::KeyError(String::from_str("the aes key length must 32.")),
                            );
                        }
                        let iv = String::from_str(DEFAULT_AES_IV);
                        proof {
                            reveal_strlit("qwertyuiopASDFGH");
                            assert(vstd::utf8::is_ascii_chars(iv@)) by {
                                assert forall|i: int| 0 <= i < iv@.len() implies '\0' <= #[trigger] iv@[i]
                                    <= '\u{7f}' by {
                                    reveal_strlit("qwertyuiopASDFGH");
                                }
                            }
                            vstd::utf8::is_ascii_chars_encode_utf8(iv@);
                            assert(encode_utf8(iv@).len() == 16);
                        }
                        SupportCrypt::Aes(AesParam { key: key.clone(), iv })
                    } else {
                        SupportCrypt::Plain
                    }
                },
                None => SupportCrypt::Plain,
            },
            None => SupportCrypt::Plain,
        };
        Ok(
            NfParam {
                config: None,
                listen,
                link_nodes,
                crypt,
                log_level,
            },
        )
    }
}

} // verus!
