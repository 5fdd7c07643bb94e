//! The JSON wire grammar used by the protocol's handshake and status
//! payloads. The encoders and parsers work on UTF-8 bytes; the spec-level
//! grammar below is the reference for both.
//!
//! The encoder produces the compact form with fields in declaration order,
//! which is also the form the parsers accept. String escapes cover the
//! standard short escapes and `\u` escapes across the Basic Multilingual
//! Plane; surrogate pairs are rejected.
use vstd::prelude::*;

use crate::err::NfError;

verus! {

// ---------------------------------------------------------------------------
// String escaping
// ---------------------------------------------------------------------------
/// The ASCII code of the lowercase hex digit for `n` (`n < 16`).
pub open spec fn spec_hex_digit(n: u8) -> u8 {
    if n < 10 {
        (0x30 + n) as u8
    } else {
        (0x57 + n) as u8
    }
}

/// How one content byte appears inside a JSON string token: quote and
/// backslash get a two-byte escape, the five short escapes cover the usual
/// control characters, any other control byte becomes `\u00xy`, and every
/// remaining byte stands for itself.
pub open spec fn spec_escape_byte(b: u8) -> Seq<u8> {
    if b == 0x22 {
        seq![0x5cu8, 0x22u8]
    } else if b == 0x5c {
        seq![0x5cu8, 0x5cu8]
    } else if b == 0x08 {
        seq![0x5cu8, 0x62u8]
    } else if b == 0x09 {
        seq![0x5cu8, 0x74u8]
    } else if b == 0x0a {
        seq![0x5cu8, 0x6eu8]
    } else if b == 0x0c {
        seq![0x5cu8, 0x66u8]
    } else if b == 0x0d {
        seq![0x5cu8, 0x72u8]
    } else if b < 0x20 {
        seq![0x5cu8, 0x75u8, 0x30u8, 0x30u8, spec_hex_digit(b >> 4), spec_hex_digit(b & 0xf)]
    } else {
        seq![b]
    }
}

/// The escaped form of a whole byte sequence.
pub open spec fn spec_escape_bytes(s: Seq<u8>) -> Seq<u8>
    decreases s.len(),
{
    if s.len() == 0 {
        Seq::empty()
    } else {
        spec_escape_byte(s[0]) + spec_escape_bytes(s.drop_first())
    }
}

/// A complete JSON string token: quote, escaped content, quote.
pub open spec fn spec_jstring(s: Seq<u8>) -> Seq<u8> {
    seq![0x22u8] + spec_escape_bytes(s) + seq![0x22u8]
}

/// Escaping distributes over concatenation.
pub proof fn lemma_escape_bytes_concat(a: Seq<u8>, b: Seq<u8>)
    ensures
        spec_escape_bytes(a + b) == spec_escape_bytes(a) + spec_escape_bytes(b),
    decreases a.len(),
{
    if a.len() == 0 {
        assert(a + b =~= b);
        assert(spec_escape_bytes(a) + spec_escape_bytes(b) =~= spec_escape_bytes(b));
    } else {
        lemma_escape_bytes_concat(a.drop_first(), b);
        assert((a + b).drop_first() =~= a.drop_first() + b);
        assert(spec_escape_byte(a[0]) + (spec_escape_bytes(a.drop_first()) + spec_escape_bytes(b))
            =~= (spec_escape_byte(a[0]) + spec_escape_bytes(a.drop_first())) + spec_escape_bytes(b));
    }
}

// ---------------------------------------------------------------------------
// String token parsing
// ---------------------------------------------------------------------------
/// The value of an ASCII hex digit, accepting both letter cases.
pub open spec fn spec_unhex(c: u8) -> Option<u8> {
    if 0x30 <= c <= 0x39 {
        Some((c - 0x30) as u8)
    } else if 0x61 <= c <= 0x66 {
        Some((c - 0x57) as u8)
    } else if 0x41 <= c <= 0x46 {
        Some((c - 0x37) as u8)
    } else {
        None
    }
}

/// The code point denoted by the four hex digits at `i`, if all four are
/// hex digits.
pub open spec fn spec_u_escape_value(b: Seq<u8>, i: int) -> Option<int> {
    if spec_unhex(b[i]) is Some && spec_unhex(b[i + 1]) is Some && spec_unhex(b[i + 2]) is Some
        && spec_unhex(b[i + 3]) is Some {
        Some(
            0x1000 * (spec_unhex(b[i])->0 as int) + 0x100 * (spec_unhex(b[i + 1])->0 as int)
                + 0x10 * (spec_unhex(b[i + 2])->0 as int) + (spec_unhex(b[i + 3])->0 as int),
        )
    } else {
        None
    }
}

/// The byte denoted by a one-character escape, if the character is one of
/// the short escapes.
pub open spec fn spec_short_escape(c: u8) -> Option<u8> {
    if c == 0x22 {
        Some(0x22u8)
    } else if c == 0x5c {
        Some(0x5cu8)
    } else if c == 0x2f {
        Some(0x2fu8)
    } else if c == 0x62 {
        Some(0x08u8)
    } else if c == 0x66 {
        Some(0x0cu8)
    } else if c == 0x6e {
        Some(0x0au8)
    } else if c == 0x72 {
        Some(0x0du8)
    } else if c == 0x74 {
        Some(0x09u8)
    } else {
        None
    }
}

/// The UTF-8 encoding of a code point written as a `\u` escape: one byte
/// below 0x80, two bytes below 0x800, three bytes up to 0xffff.
pub open spec fn spec_u_escape_utf8(v: int) -> Seq<u8>
    recommends
        0 <= v <= 0xffff,
        !(0xd800 <= v <= 0xdfff),
{
    if v < 0x80 {
        seq![v as u8]
    } else if v < 0x800 {
        seq![(0xc0 + v / 0x40) as u8, (0x80 + v % 0x40) as u8]
    } else {
        seq![(0xe0 + v / 0x1000) as u8, (0x80 + (v / 0x40) % 0x40) as u8, (0x80 + v % 0x40) as u8]
    }
}

/// Prepends one decoded byte to a parse result.
pub open spec fn spec_cons_byte(x: u8, rest: Option<(Seq<u8>, int)>) -> Option<(Seq<u8>, int)> {
    match rest {
        Some((s, j)) => Some((seq![x] + s, j)),
        None => None,
    }
}

/// Parses the remainder of a JSON string token starting just after the
/// opening quote at position `i`. Yields the decoded content bytes and the
/// position just after the closing quote.
pub open spec fn spec_parse_string_body(b: Seq<u8>, i: int) -> Option<(Seq<u8>, int)>
    decreases b.len() - i,
    when i >= 0
{
    if i >= b.len() {
        None
    } else if b[i] == 0x22 {
        Some((Seq::empty(), i + 1))
    } else if b[i] == 0x5c {
        if i + 2 <= b.len() {
            if b[i + 1] == 0x75 {
                if i + 6 <= b.len() {
                    match spec_u_escape_value(b, i + 2) {
                        Some(v) => if 0xd800 <= v <= 0xdfff {
                            None
                        } else {
                            spec_parse_join(
                                spec_u_escape_utf8(v),
                                spec_parse_string_body(b, i + 6),
                            )
                        },
                        None => None,
                    }
                } else {
                    None
                }
            } else {
                match spec_short_escape(b[i + 1]) {
                    Some(d) => spec_cons_byte(d, spec_parse_string_body(b, i + 2)),
                    None => None,
                }
            }
        } else {
            None
        }
    } else {
        spec_cons_byte(b[i], spec_parse_string_body(b, i + 1))
    }
}

/// A successful string-body parse always makes progress and stays within
/// the buffer.
pub proof fn lemma_parse_string_body_bounds(b: Seq<u8>, i: int)
    requires
        i >= 0,
    ensures
        spec_parse_string_body(b, i) matches Some((s, j)) ==> i < j <= b.len(),
    decreases b.len() - i,
{
    if i >= b.len() {
    } else if b[i] == 0x22 {
    } else if b[i] == 0x5c {
        if i + 2 <= b.len() {
            if b[i + 1] == 0x75 {
                if i + 6 <= b.len() {
                    lemma_parse_string_body_bounds(b, i + 6);
                }
            } else {
                lemma_parse_string_body_bounds(b, i + 2);
            }
        }
    } else {
        lemma_parse_string_body_bounds(b, i + 1);
    }
}

/// Parsing a string body inverts escaping: if the bytes at `i` are the
/// escaped form of `s` followed by a closing quote, the parser recovers
/// exactly `s` and stops just after that quote.
#[verifier::spinoff_prover]
#[verifier::rlimit(60)]
pub proof fn lemma_parse_string_body_of_escaped(b: Seq<u8>, i: int, s: Seq<u8>)
    requires
        0 <= i,
        i + spec_escape_bytes(s).len() + 1 <= b.len(),
        b.subrange(i, i + spec_escape_bytes(s).len() + 1) == spec_escape_bytes(s) + seq![0x22u8],
    ensures
        spec_parse_string_body(b, i) == Some((s, i + spec_escape_bytes(s).len() + 1)),
    decreases s.len(),
{
    let es = spec_escape_bytes(s);
    let whole = es + seq![0x22u8];
    assert forall|k: int| 0 <= k < whole.len() implies b[i + k] == whole[k] by {
        assert(b.subrange(i, i + es.len() + 1)[k] == b[i + k]);
    }
    if s.len() == 0 {
        assert(b[i + 0] == whole[0]);
        assert(b[i] == 0x22);
    } else {
        let e = spec_escape_byte(s[0]);
        let s1 = s.drop_first();
        let es1 = spec_escape_bytes(s1);
        assert(es == e + es1);
        assert forall|k: int| 0 <= k < e.len() implies b[i + k] == e[k] by {
            assert(whole[k] == (e + es1)[k]);
        }
        let i1 = i + e.len();
        assert(b.subrange(i1, i1 + es1.len() + 1) =~= es1 + seq![0x22u8]) by {
            assert forall|k: int| 0 <= k < es1.len() + 1 implies
                b.subrange(i1, i1 + es1.len() + 1)[k] == (es1 + seq![0x22u8])[k] by {
                assert(b.subrange(i1, i1 + es1.len() + 1)[k] == b[i1 + k]);
                assert(b[i1 + k] == whole[e.len() + k]);
                if k < es1.len() {
                    assert(whole[e.len() + k] == es[e.len() + k]);
                    assert(es[e.len() + k] == (e + es1)[e.len() + k]);
                } else {
                    assert(whole[e.len() + k] == 0x22u8);
                }
            }
        }
        lemma_parse_string_body_of_escaped(b, i1, s1);
        let x = s[0];
        if x == 0x22 || x == 0x5c {
            assert(b[i + 0] == e[0] && b[i + 1] == e[1]);
            assert(b[i] == 0x5c && b[i + 1] == x);
            assert(spec_short_escape(x) == Some(x));
            assert(spec_parse_string_body(b, i) == spec_cons_byte(x, spec_parse_string_body(b, i + 2)));
            assert(seq![x] + s1 =~= s);
        } else if x == 0x08 || x == 0x09 || x == 0x0a || x == 0x0c || x == 0x0d {
            assert(b[i + 0] == e[0] && b[i + 1] == e[1]);
            assert(b[i] == 0x5c);
            assert(spec_short_escape(b[i + 1]) == Some(x));
            assert(spec_parse_string_body(b, i) == spec_cons_byte(x, spec_parse_string_body(b, i + 2)));
            assert(seq![x] + s1 =~= s);
        } else if x < 0x20 {
            assert(b[i + 0] == e[0] && b[i + 1] == e[1] && b[i + 2] == e[2] && b[i + 3] == e[3]
                && b[i + 4] == e[4] && b[i + 5] == e[5]);
            assert(b[i] == 0x5c && b[i + 1] == 0x75 && b[i + 2] == 0x30 && b[i + 3] == 0x30
                && b[i + 4] == spec_hex_digit(x >> 4) && b[i + 5] == spec_hex_digit(x & 0xf));
            assert(x >> 4 < 16 && x & 0xf < 16) by (bit_vector);
            lemma_unhex_hex_digit(x >> 4);
            lemma_unhex_hex_digit(x & 0xf);
            assert(spec_unhex(b[i + 2]) == Some(0u8) && spec_unhex(b[i + 3]) == Some(0u8));
            let v = spec_u_escape_value(b, i + 2);
            assert(v == Some(0x10 * ((x >> 4) as int) + ((x & 0xf) as int)));
            assert(0x10 * ((x >> 4) as int) + ((x & 0xf) as int) == x as int) by (bit_vector);
            assert(spec_u_escape_utf8(x as int) =~= seq![x]);
            assert(spec_parse_string_body(b, i) == spec_parse_join(
                seq![x],
                spec_parse_string_body(b, i + 6),
            ));
            assert(spec_parse_join(seq![x], spec_parse_string_body(b, i + 6)) == spec_cons_byte(
                x,
                spec_parse_string_body(b, i + 6),
            ));
            assert(spec_parse_string_body(b, i) == spec_cons_byte(x, spec_parse_string_body(b, i + 6)));
            assert(seq![x] + s1 =~= s);
        } else {
            assert(b[i + 0] == e[0]);
            assert(b[i] == x);
            assert(x != 0x22 && x != 0x5c);
            assert(spec_parse_string_body(b, i) == spec_cons_byte(x, spec_parse_string_body(b, i + 1)));
            assert(seq![x] + s1 =~= s);
        }
    }
}

/// An ASCII hex digit produced by `spec_hex_digit` decodes to its value.
pub proof fn lemma_unhex_hex_digit(n: u8)
    requires
        n < 16,
    ensures
        spec_unhex(spec_hex_digit(n)) == Some(n),
{
}


// ---------------------------------------------------------------------------
// Executable string escaping and parsing
// ---------------------------------------------------------------------------
/// Joins already-decoded content bytes with the outcome of parsing the rest
/// of a string body.
pub open spec fn spec_parse_join(prefix: Seq<u8>, rest: Option<(Seq<u8>, int)>) -> Option<
    (Seq<u8>, int),
> {
    match rest {
        Some((s, j)) => Some((prefix + s, j)),
        None => None,
    }
}

proof fn lemma_join_empty(rest: Option<(Seq<u8>, int)>)
    ensures
        spec_parse_join(Seq::empty(), rest) == rest,
{
    match rest {
        Some((s, j)) => {
            assert(Seq::empty() + s =~= s);
        },
        None => {},
    }
}

proof fn lemma_join_cons(prefix: Seq<u8>, x: u8, rest: Option<(Seq<u8>, int)>)
    ensures
        spec_parse_join(prefix, spec_cons_byte(x, rest)) == spec_parse_join(prefix.push(x), rest),
{
    match rest {
        Some((s, j)) => {
            assert(prefix + (seq![x] + s) =~= prefix.push(x) + s);
        },
        None => {},
    }
}

proof fn lemma_join_join(prefix: Seq<u8>, mid: Seq<u8>, rest: Option<(Seq<u8>, int)>)
    ensures
        spec_parse_join(prefix, spec_parse_join(mid, rest)) == spec_parse_join(prefix + mid, rest),
{
    match rest {
        Some((s, j)) => {
            assert(prefix + (mid + s) =~= (prefix + mid) + s);
        },
        None => {},
    }
}

/// Returns the lowercase ASCII hex digit for `n`.
fn hex_digit(n: u8) -> (r: u8)
    requires
        n < 16,
    ensures
        r == spec_hex_digit(n),
{
    if n < 10 {
        0x30 + n
    } else {
        0x57 + n
    }
}

/// Returns the value of an ASCII hex digit, accepting both letter cases.
fn unhex(c: u8) -> (r: Option<u8>)
    ensures
        r == spec_unhex(c),
{
    if 0x30 <= c && c <= 0x39 {
        Some(c - 0x30)
    } else if 0x61 <= c && c <= 0x66 {
        Some(c - 0x57)
    } else if 0x41 <= c && c <= 0x46 {
        Some(c - 0x37)
    } else {
        None
    }
}

/// Appends the escaped form of every byte of `s` to `out`.
fn escape_into(out: &mut Vec<u8>, s: &[u8])
    ensures
        final(out)@ == old(out)@ + spec_escape_bytes(s@),
{
    let n = s.len();
    let mut i: usize = 0;
    while i < n
        invariant
            n == s@.len(),
            i <= n,
            out@ == old(out)@ + spec_escape_bytes(s@.subrange(0, i as int)),
        decreases n - i,
    {
        let b = s[i];
        let ghost pre = out@;
        if b == 0x22 {
            out.push(0x5c);
            out.push(0x22);
        } else if b == 0x5c {
            out.push(0x5c);
            out.push(0x5c);
        } else if b == 0x08 {
            out.push(0x5c);
            out.push(0x62);
        } else if b == 0x09 {
            out.push(0x5c);
            out.push(0x74);
        } else if b == 0x0a {
            out.push(0x5c);
            out.push(0x6e);
        } else if b == 0x0c {
            out.push(0x5c);
            out.push(0x66);
        } else if b == 0x0d {
            out.push(0x5c);
            out.push(0x72);
        } else if b < 0x20 {
            out.push(0x5c);
            out.push(0x75);
            out.push(0x30);
            out.push(0x30);
            proof {
                assert(b >> 4 < 16 && b & 0xf < 16) by (bit_vector);
            }
            out.push(hex_digit(b >> 4));
            out.push(hex_digit(b & 0xf));
        } else {
            out.push(b);
        }
        proof {
            assert(out@ =~= pre + spec_escape_byte(b));
            assert(s@.subrange(0, i + 1) =~= s@.subrange(0, i as int) + seq![b]);
            lemma_escape_bytes_concat(s@.subrange(0, i as int), seq![b]);
            assert(spec_escape_bytes(seq![b]) =~= spec_escape_byte(b)) by {
                let one = seq![b];
                assert(one.len() == 1 && one[0] == b);
                assert(one.drop_first() =~= Seq::<u8>::empty());
                assert(spec_escape_bytes(one) == spec_escape_byte(b) + spec_escape_bytes(
                    Seq::<u8>::empty(),
                ));
                assert(spec_escape_bytes(Seq::<u8>::empty()) =~= Seq::<u8>::empty());
                assert(spec_escape_byte(b) + Seq::<u8>::empty() =~= spec_escape_byte(b));
            }
            assert(out@ =~= old(out)@ + spec_escape_bytes(s@.subrange(0, i + 1)));
        }
        i = i + 1;
    }
    assert(s@.subrange(0, n as int) =~= s@);
}

/// Appends a complete JSON string token for the content bytes `s` to `out`.
pub fn jstring_into(out: &mut Vec<u8>, s: &[u8])
    ensures
        final(out)@ == old(out)@ + spec_jstring(s@),
{
    out.push(0x22);
    escape_into(out, s);
    out.push(0x22);
    assert(out@ =~= old(out)@ + spec_jstring(s@));
}

/// Parses a JSON string body starting just after the opening quote at
/// `start`; returns the decoded content bytes and the position just after
/// the closing quote.
pub fn parse_string_body(b: &Vec<u8>, start: usize) -> (r: Result<(Vec<u8>, usize), NfError>)
    ensures
        r matches Ok((s, j)) ==> spec_parse_string_body(b@, start as int) == Some((s@, j as int))
            && start < j <= b@.len(),
        r is Err ==> spec_parse_string_body(b@, start as int) is None,
{
    let n = b.len();
    let mut i: usize = start;
    let mut acc: Vec<u8> = Vec::new();
    proof {
        lemma_join_empty(spec_parse_string_body(b@, start as int));
    }
    loop
        invariant
            n == b@.len(),
            start <= i,
            spec_parse_string_body(b@, start as int) == spec_parse_join(
                acc@,
                spec_parse_string_body(b@, i as int),
            ),
        decreases n - i,
    {
        if i >= n {
            return Err(NfError::E(String::from_str("json string is not terminated.")));
        }
        let c = b[i];
        if c == 0x22 {
            proof {
                assert(spec_parse_string_body(b@, i as int) == Some((Seq::<u8>::empty(), i + 1)));
                assert(acc@ + Seq::<u8>::empty() =~= acc@);
            }
            return Ok((acc, i + 1));
        } else if c == 0x5c {
            if n - i < 2 {
                return Err(NfError::E(String::from_str("json escape is cut short.")));
            }
            let e = b[i + 1];
            if e == 0x75 {
                if n - i < 6 {
                    return Err(NfError::E(String::from_str("json unicode escape is cut short.")));
                }
                let h0 = unhex(b[i + 2]);
                let h1 = unhex(b[i + 3]);
                let h2 = unhex(b[i + 4]);
                let h3 = unhex(b[i + 5]);
                if h0.is_none() || h1.is_none() || h2.is_none() || h3.is_none() {
                    return Err(NfError::E(String::from_str("json unicode escape is malformed.")));
                }
                let v: u32 = 0x1000 * (h0.unwrap() as u32) + 0x100 * (h1.unwrap() as u32) + 0x10
                    * (h2.unwrap() as u32) + (h3.unwrap() as u32);
                if 0xd800 <= v && v <= 0xdfff {
                    return Err(
                        NfError::E(String::from_str("json unicode escape is a surrogate.")),
                    );
                }
                proof {
                    assert(spec_u_escape_value(b@, i + 2) == Some(v as int));
                    assert(spec_parse_string_body(b@, i as int) == spec_parse_join(
                        spec_u_escape_utf8(v as int),
                        spec_parse_string_body(b@, i + 6),
                    ));
                    lemma_join_join(
                        acc@,
                        spec_u_escape_utf8(v as int),
                        spec_parse_string_body(b@, i + 6),
                    );
                }
                push_u_escape_utf8(&mut acc, v);
                i = i + 6;
            } else {
                let d_opt = short_escape(e);
                match d_opt {
                    Some(d) => {
                        proof {
                            assert(spec_parse_string_body(b@, i as int) == spec_cons_byte(
                                d,
                                spec_parse_string_body(b@, i + 2),
                            ));
                            lemma_join_cons(acc@, d, spec_parse_string_body(b@, i + 2));
                        }
                        acc.push(d);
                        i = i + 2;
                    },
                    None => {
                        return Err(NfError::E(String::from_str("json escape is malformed.")));
                    },
                }
            }
        } else {
            proof {
                assert(spec_parse_string_body(b@, i as int) == spec_cons_byte(
                    c,
                    spec_parse_string_body(b@, i + 1),
                ));
                lemma_join_cons(acc@, c, spec_parse_string_body(b@, i + 1));
            }
            acc.push(c);
            i = i + 1;
        }
    }
}

/// Appends the UTF-8 encoding of a code point written as a `\u` escape.
fn push_u_escape_utf8(acc: &mut Vec<u8>, v: u32)
    requires
        v <= 0xffff,
        !(0xd800 <= v <= 0xdfff),
    ensures
        final(acc)@ == old(acc)@ + spec_u_escape_utf8(v as int),
{
    if v < 0x80 {
        acc.push(v as u8);
        assert(acc@ =~= old(acc)@ + spec_u_escape_utf8(v as int));
    } else if v < 0x800 {
        proof {
            assert(v >> 6 == v / 0x40 && (v & 0x3f) == v % 0x40 && v >> 6 < 0x20 && (v & 0x3f)
                < 0x40) by (bit_vector)
                requires
                    0x80 <= v < 0x800,
            ;
        }
        acc.push(0xc0 + (v >> 6) as u8);
        acc.push(0x80 + (v & 0x3f) as u8);
        assert(acc@ =~= old(acc)@ + spec_u_escape_utf8(v as int));
    } else {
        proof {
            assert(v >> 12 == v / 0x1000 && ((v >> 6) & 0x3f) == (v / 0x40) % 0x40 && (v & 0x3f)
                == v % 0x40 && v >> 12 < 0x10 && ((v >> 6) & 0x3f) < 0x40 && (v & 0x3f) < 0x40)
                by (bit_vector)
                requires
                    0x800 <= v < 0x10000,
            ;
        }
        acc.push(0xe0 + (v >> 12) as u8);
        acc.push(0x80 + ((v >> 6) & 0x3f) as u8);
        acc.push(0x80 + (v & 0x3f) as u8);
        assert(acc@ =~= old(acc)@ + spec_u_escape_utf8(v as int));
    }
}

/// Returns the byte denoted by a one-character escape.
fn short_escape(c: u8) -> (r: Option<u8>)
    ensures
        r == spec_short_escape(c),
{
    if c == 0x22 {
        Some(0x22)
    } else if c == 0x5c {
        Some(0x5c)
    } else if c == 0x2f {
        Some(0x2f)
    } else if c == 0x62 {
        Some(0x08)
    } else if c == 0x66 {
        Some(0x0c)
    } else if c == 0x6e {
        Some(0x0a)
    } else if c == 0x72 {
        Some(0x0d)
    } else if c == 0x74 {
        Some(0x09)
    } else {
        None
    }
}


// ---------------------------------------------------------------------------
// The handshake object grammar
// ---------------------------------------------------------------------------
/// The opening of the handshake object up to the value of its first field:
/// `{"target_address":`.
pub open spec fn spec_fsa_prefix() -> Seq<u8> {
    seq![
        0x7bu8, 0x22u8, 0x74u8, 0x61u8, 0x72u8, 0x67u8, 0x65u8, 0x74u8, 0x5fu8, 0x61u8, 0x64u8,
        0x64u8, 0x72u8, 0x65u8, 0x73u8, 0x73u8, 0x22u8, 0x3au8,
    ]
}

/// The middle of the handshake object up to the opening bracket of the hop
/// list: `,"link_address":[`.
pub open spec fn spec_fsa_mid() -> Seq<u8> {
    seq![
        0x2cu8, 0x22u8, 0x6cu8, 0x69u8, 0x6eu8, 0x6bu8, 0x5fu8, 0x61u8, 0x64u8, 0x64u8, 0x72u8,
        0x65u8, 0x73u8, 0x73u8, 0x22u8, 0x3au8, 0x5bu8,
    ]
}

/// The hop list contents: string tokens separated by commas, without the
/// surrounding brackets.
pub open spec fn spec_links_json(links: Seq<Seq<u8>>) -> Seq<u8>
    decreases links.len(),
{
    if links.len() == 0 {
        Seq::empty()
    } else if links.len() == 1 {
        spec_jstring(links[0])
    } else {
        spec_jstring(links[0]) + seq![0x2cu8] + spec_links_json(links.drop_first())
    }
}

/// The complete encoded handshake object for a target address and hop list
/// given as UTF-8 bytes.
pub open spec fn spec_fsa_json(target: Seq<u8>, links: Seq<Seq<u8>>) -> Seq<u8> {
    spec_fsa_prefix() + spec_jstring(target) + spec_fsa_mid() + spec_links_json(links)
        + seq![0x5du8, 0x7du8]
}

/// Prepends one decoded hop to a hop-list parse result.
pub open spec fn spec_cons_link(x: Seq<u8>, rest: Option<(Seq<Seq<u8>>, int)>) -> Option<
    (Seq<Seq<u8>>, int),
> {
    match rest {
        Some((ss, k)) => Some((seq![x] + ss, k)),
        None => None,
    }
}

/// Parses the hop list starting just after the opening bracket: either an
/// immediate closing bracket, or a first string token followed by the rest
/// of the list.
pub open spec fn spec_parse_links(b: Seq<u8>, i: int) -> Option<(Seq<Seq<u8>>, int)>
    decreases b.len() - i,
    when i >= 0
    via spec_parse_links_dec
{
    if i >= b.len() {
        None
    } else if b[i] == 0x5d {
        Some((Seq::empty(), i + 1))
    } else if b[i] == 0x22 {
        match spec_parse_string_body(b, i + 1) {
            Some((x, j)) => spec_cons_link(x, spec_parse_links_rest(b, j)),
            None => None,
        }
    } else {
        None
    }
}

/// Parses the hop list after one complete string token: either the closing
/// bracket, or a comma followed by another string token.
pub open spec fn spec_parse_links_rest(b: Seq<u8>, i: int) -> Option<(Seq<Seq<u8>>, int)>
    decreases b.len() - i,
    when i >= 0
    via spec_parse_links_rest_dec
{
    if i >= b.len() {
        None
    } else if b[i] == 0x5d {
        Some((Seq::empty(), i + 1))
    } else if b[i] == 0x2c {
        if i + 1 < b.len() && b[i + 1] == 0x22 {
            match spec_parse_string_body(b, i + 2) {
                Some((x, j)) => spec_cons_link(x, spec_parse_links_rest(b, j)),
                None => None,
            }
        } else {
            None
        }
    } else {
        None
    }
}

#[via_fn]
proof fn spec_parse_links_dec(b: Seq<u8>, i: int) {
    if 0 <= i < b.len() && b[i] == 0x22 {
        lemma_parse_string_body_bounds(b, i + 1);
    }
}

#[via_fn]
proof fn spec_parse_links_rest_dec(b: Seq<u8>, i: int) {
    if 0 <= i < b.len() && b[i] == 0x2c && i + 1 < b.len() {
        lemma_parse_string_body_bounds(b, i + 2);
    }
}

/// The encoded tail of a hop list after one complete string token: for each
/// remaining hop a comma and its string token, then the closing bracket.
pub open spec fn spec_links_tail_json(links: Seq<Seq<u8>>) -> Seq<u8>
    decreases links.len(),
{
    if links.len() == 0 {
        seq![0x5du8]
    } else {
        seq![0x2cu8] + spec_jstring(links[0]) + spec_links_tail_json(links.drop_first())
    }
}

/// A non-empty encoded hop list splits into its first string token and the
/// encoded tail.
pub proof fn lemma_links_json_split(links: Seq<Seq<u8>>)
    requires
        links.len() >= 1,
    ensures
        spec_links_json(links) + seq![0x5du8] == spec_jstring(links[0]) + spec_links_tail_json(
            links.drop_first(),
        ),
    decreases links.len(),
{
    if links.len() == 1 {
        assert(spec_links_tail_json(links.drop_first()) =~= seq![0x5du8]);
    } else {
        lemma_links_json_split(links.drop_first());
        assert((spec_jstring(links[0]) + seq![0x2cu8] + spec_links_json(links.drop_first()))
            + seq![0x5du8] =~= spec_jstring(links[0]) + (seq![0x2cu8] + (spec_links_json(
            links.drop_first(),
        ) + seq![0x5du8])));
        assert(seq![0x2cu8] + (spec_jstring(links.drop_first()[0]) + spec_links_tail_json(
            links.drop_first().drop_first(),
        )) =~= spec_links_tail_json(links.drop_first()));
        assert(spec_jstring(links[0]) + (seq![0x2cu8] + (spec_links_json(links.drop_first())
            + seq![0x5du8])) =~= spec_jstring(links[0]) + spec_links_tail_json(links.drop_first()));
    }
}

/// Parsing the tail of a hop list inverts encoding it.
pub proof fn lemma_parse_links_rest_of_encoded(b: Seq<u8>, i: int, ls: Seq<Seq<u8>>)
    requires
        0 <= i,
        i + spec_links_tail_json(ls).len() <= b.len(),
        b.subrange(i, i + spec_links_tail_json(ls).len()) == spec_links_tail_json(ls),
    ensures
        spec_parse_links_rest(b, i) == Some((ls, i + spec_links_tail_json(ls).len())),
    decreases ls.len(),
{
    let tj = spec_links_tail_json(ls);
    assert forall|k: int| 0 <= k < tj.len() implies b[i + k] == tj[k] by {
        assert(b.subrange(i, i + tj.len())[k] == b[i + k]);
    }
    if ls.len() == 0 {
        assert(b[i + 0] == tj[0]);
        assert(b[i] == 0x5d);
    } else {
        let x = ls[0];
        let js = spec_jstring(x);
        let es = spec_escape_bytes(x);
        let rest_tj = spec_links_tail_json(ls.drop_first());
        assert(tj == seq![0x2cu8] + js + rest_tj);
        assert(b[i + 0] == tj[0] && b[i + 1] == tj[1]);
        assert(tj[0] == 0x2c);
        assert(tj[1] == (seq![0x2cu8] + js + rest_tj)[1]);
        assert((seq![0x2cu8] + js + rest_tj)[1] == js[0]);
        assert(js[0] == 0x22);
        assert(b[i] == 0x2c && i + 1 < b.len() && b[i + 1] == 0x22);
        // the string token for the first hop sits at i + 1
        assert(b.subrange(i + 2, i + 2 + es.len() + 1) =~= es + seq![0x22u8]) by {
            assert forall|k: int| 0 <= k < es.len() + 1 implies b.subrange(
                i + 2,
                i + 2 + es.len() + 1,
            )[k] == (es + seq![0x22u8])[k] by {
                assert(b.subrange(i + 2, i + 2 + es.len() + 1)[k] == b[i + 2 + k]);
                assert(b[i + 2 + k] == tj[2 + k]);
                assert(tj[2 + k] == (seq![0x2cu8] + js + rest_tj)[2 + k]);
                assert((seq![0x2cu8] + js + rest_tj)[2 + k] == js[1 + k]);
                assert(js[1 + k] == (seq![0x22u8] + es + seq![0x22u8])[1 + k]);
            }
        }
        lemma_parse_string_body_of_escaped(b, i + 2, x);
        let j = i + 2 + es.len() + 1;
        assert(b.subrange(j, j + rest_tj.len()) =~= rest_tj) by {
            assert forall|k: int| 0 <= k < rest_tj.len() implies b.subrange(j, j + rest_tj.len())[k]
                == rest_tj[k] by {
                assert(b.subrange(j, j + rest_tj.len())[k] == b[j + k]);
                assert(b[j + k] == tj[1 + js.len() + k]);
                assert(tj[1 + js.len() + k] == (seq![0x2cu8] + js + rest_tj)[1 + js.len() + k]);
            }
        }
        lemma_parse_links_rest_of_encoded(b, j, ls.drop_first());
        assert(spec_parse_links_rest(b, i) == spec_cons_link(
            x,
            spec_parse_links_rest(b, j),
        ));
        assert(seq![x] + ls.drop_first() =~= ls);
    }
}

/// Parsing a hop list inverts encoding it.
pub proof fn lemma_parse_links_of_encoded(b: Seq<u8>, i: int, ls: Seq<Seq<u8>>)
    requires
        0 <= i,
        i + spec_links_json(ls).len() + 1 <= b.len(),
        b.subrange(i, i + spec_links_json(ls).len() + 1) == spec_links_json(ls) + seq![0x5du8],
    ensures
        spec_parse_links(b, i) == Some((ls, i + spec_links_json(ls).len() + 1)),
{
    let lj = spec_links_json(ls);
    let whole = lj + seq![0x5du8];
    assert forall|k: int| 0 <= k < whole.len() implies b[i + k] == whole[k] by {
        assert(b.subrange(i, i + lj.len() + 1)[k] == b[i + k]);
    }
    if ls.len() == 0 {
        assert(b[i + 0] == whole[0]);
        assert(b[i] == 0x5d);
    } else {
        lemma_links_json_split(ls);
        let x = ls[0];
        let js = spec_jstring(x);
        let es = spec_escape_bytes(x);
        let rest_tj = spec_links_tail_json(ls.drop_first());
        assert(whole == js + rest_tj);
        assert(b[i + 0] == whole[0]);
        assert(whole[0] == js[0] && js[0] == 0x22);
        assert(b[i] == 0x22);
        assert(b.subrange(i + 1, i + 1 + es.len() + 1) =~= es + seq![0x22u8]) by {
            assert forall|k: int| 0 <= k < es.len() + 1 implies b.subrange(
                i + 1,
                i + 1 + es.len() + 1,
            )[k] == (es + seq![0x22u8])[k] by {
                assert(b.subrange(i + 1, i + 1 + es.len() + 1)[k] == b[i + 1 + k]);
                assert(b[i + 1 + k] == whole[1 + k]);
                assert(whole[1 + k] == (js + rest_tj)[1 + k]);
                assert((js + rest_tj)[1 + k] == js[1 + k]);
                assert(js[1 + k] == (seq![0x22u8] + es + seq![0x22u8])[1 + k]);
            }
        }
        lemma_parse_string_body_of_escaped(b, i + 1, x);
        let j = i + 1 + es.len() + 1;
        assert(b.subrange(j, j + rest_tj.len()) =~= rest_tj) by {
            assert forall|k: int| 0 <= k < rest_tj.len() implies b.subrange(j, j + rest_tj.len())[k]
                == rest_tj[k] by {
                assert(b.subrange(j, j + rest_tj.len())[k] == b[j + k]);
                assert(b[j + k] == whole[js.len() + k]);
                assert(whole[js.len() + k] == (js + rest_tj)[js.len() + k]);
            }
        }
        lemma_parse_links_rest_of_encoded(b, j, ls.drop_first());
        assert(spec_parse_links(b, i) == spec_cons_link(x, spec_parse_links_rest(b, j)));
        assert(seq![x] + ls.drop_first() =~= ls);
    }
}


/// Parses a complete encoded handshake object, yielding the target address
/// bytes and the hop list bytes. The whole buffer must be consumed.
pub open spec fn spec_parse_fsa(b: Seq<u8>) -> Option<(Seq<u8>, Seq<Seq<u8>>)> {
    let p = spec_fsa_prefix();
    if p.len() + 1 <= b.len() && b.subrange(0, p.len() as int) == p && b[p.len() as int] == 0x22 {
        match spec_parse_string_body(b, p.len() as int + 1) {
            Some((t, j)) => {
                let m = spec_fsa_mid();
                if j + m.len() <= b.len() && b.subrange(j, j + m.len()) == m {
                    match spec_parse_links(b, j + m.len()) {
                        Some((ls, k)) => if k + 1 == b.len() && b[k] == 0x7d {
                            Some((t, ls))
                        } else {
                            None
                        },
                        None => None,
                    }
                } else {
                    None
                }
            },
            None => None,
        }
    } else {
        None
    }
}

/// Parsing a handshake object inverts encoding it.
pub proof fn lemma_parse_fsa_of_encoded(target: Seq<u8>, ls: Seq<Seq<u8>>)
    ensures
        spec_parse_fsa(spec_fsa_json(target, ls)) == Some((target, ls)),
{
    let b = spec_fsa_json(target, ls);
    let p = spec_fsa_prefix();
    let js = spec_jstring(target);
    let es = spec_escape_bytes(target);
    let m = spec_fsa_mid();
    let lj = spec_links_json(ls);
    let tail = seq![0x5du8, 0x7du8];
    assert(b == p + js + m + lj + tail);
    let jsi = p.len() as int;
    let mi = jsi + js.len();
    let li = mi + m.len();
    let ki = li + lj.len();
    assert forall|k: int| 0 <= k < b.len() implies b[k] == (if k < jsi {
        p[k]
    } else if k < mi {
        js[k - jsi]
    } else if k < li {
        m[k - mi]
    } else if k < ki {
        lj[k - li]
    } else {
        tail[k - ki]
    }) by {
        assert(b[k] == (p + js + m + lj + tail)[k]);
    }
    assert(b.subrange(0, jsi) =~= p);
    assert(b[jsi] == js[0] && js[0] == 0x22);
    assert(b.subrange(jsi + 1, jsi + 1 + es.len() + 1) =~= es + seq![0x22u8]) by {
        assert forall|k: int| 0 <= k < es.len() + 1 implies b.subrange(
            jsi + 1,
            jsi + 1 + es.len() + 1,
        )[k] == (es + seq![0x22u8])[k] by {
            assert(b.subrange(jsi + 1, jsi + 1 + es.len() + 1)[k] == b[jsi + 1 + k]);
            assert(js[1 + k] == (seq![0x22u8] + es + seq![0x22u8])[1 + k]);
        }
    }
    lemma_parse_string_body_of_escaped(b, jsi + 1, target);
    assert(spec_parse_string_body(b, jsi + 1) == Some((target, mi)));
    assert(b.subrange(mi, mi + m.len()) =~= m);
    assert(b.subrange(li, li + lj.len() + 1) =~= lj + seq![0x5du8]) by {
        assert forall|k: int| 0 <= k < lj.len() + 1 implies b.subrange(li, li + lj.len() + 1)[k]
            == (lj + seq![0x5du8])[k] by {
            assert(b.subrange(li, li + lj.len() + 1)[k] == b[li + k]);
            if k == lj.len() {
                assert(b[li + k] == tail[0]);
            }
        }
    }
    lemma_parse_links_of_encoded(b, li, ls);
    assert(spec_parse_links(b, li) == Some((ls, ki + 1)));
    assert(b[ki + 1] == tail[1] && tail[1] == 0x7d);
    assert(ki + 2 == b.len());
}

/// Appends the opening of the handshake object, `{"target_address":`.
fn push_fsa_prefix(out: &mut Vec<u8>)
    ensures
        final(out)@ == old(out)@ + spec_fsa_prefix(),
{
    out.push(0x7b);
    out.push(0x22);
    out.push(0x74);
    out.push(0x61);
    out.push(0x72);
    out.push(0x67);
    out.push(0x65);
    out.push(0x74);
    out.push(0x5f);
    out.push(0x61);
    out.push(0x64);
    out.push(0x64);
    out.push(0x72);
    out.push(0x65);
    out.push(0x73);
    out.push(0x73);
    out.push(0x22);
    out.push(0x3a);
    assert(out@ =~= old(out)@ + spec_fsa_prefix());
}

/// Appends the middle of the handshake object, `,"link_address":[`.
fn push_fsa_mid(out: &mut Vec<u8>)
    ensures
        final(out)@ == old(out)@ + spec_fsa_mid(),
{
    out.push(0x2c);
    out.push(0x22);
    out.push(0x6c);
    out.push(0x69);
    out.push(0x6e);
    out.push(0x6b);
    out.push(0x5f);
    out.push(0x61);
    out.push(0x64);
    out.push(0x64);
    out.push(0x72);
    out.push(0x65);
    out.push(0x73);
    out.push(0x73);
    out.push(0x22);
    out.push(0x3a);
    out.push(0x5b);
    assert(out@ =~= old(out)@ + spec_fsa_mid());
}

/// True when the bytes of `lit` occur in `b` starting at `i`.
pub open spec fn spec_match_at(b: Seq<u8>, i: int, lit: Seq<u8>) -> bool {
    i + lit.len() <= b.len() && b.subrange(i, i + lit.len()) == lit
}

/// Compares the bytes of `b` at `i` against `lit`.
fn match_at(b: &Vec<u8>, i: usize, lit: &Vec<u8>) -> (r: bool)
    requires
        i <= b@.len(),
    ensures
        r == spec_match_at(b@, i as int, lit@),
{
    let n = b.len();
    let m = lit.len();
    if n - i < m {
        return false;
    }
    let mut k: usize = 0;
    while k < m
        invariant
            n == b@.len(),
            m == lit@.len(),
            i + m <= n,
            k <= m,
            forall|q: int| 0 <= q < k ==> b@[i + q] == lit@[q],
        decreases m - k,
    {
        if b[i + k] != lit[k] {
            proof {
                assert(b@.subrange(i as int, i + m)[k as int] == b@[i + k]);
            }
            return false;
        }
        k = k + 1;
    }
    proof {
        assert(b@.subrange(i as int, i + m) =~= lit@);
    }
    true
}

/// The element-wise views of a sequence of byte vectors.
pub open spec fn spec_vecs_view(v: Seq<Vec<u8>>) -> Seq<Seq<u8>> {
    Seq::new(v.len(), |k: int| v[k]@)
}

/// Extending a hop list extends its encoding by a separator (after the
/// first hop) and the new hop's string token.
pub proof fn lemma_links_json_snoc(ls: Seq<Seq<u8>>, x: Seq<u8>)
    ensures
        ls.len() == 0 ==> spec_links_json(ls.push(x)) == spec_jstring(x),
        ls.len() >= 1 ==> spec_links_json(ls.push(x)) == spec_links_json(ls) + seq![0x2cu8]
            + spec_jstring(x),
    decreases ls.len(),
{
    if ls.len() == 0 {
        assert(ls.push(x).len() == 1);
        assert(ls.push(x)[0] == x);
    } else if ls.len() == 1 {
        assert(ls.push(x)[0] == ls[0]);
        assert(ls.push(x).drop_first() =~= seq![x]);
        assert(spec_links_json(seq![x]) == spec_jstring(x));
    } else {
        lemma_links_json_snoc(ls.drop_first(), x);
        assert(ls.push(x).drop_first() =~= ls.drop_first().push(x));
        assert(ls.push(x)[0] == ls[0]);
        assert(spec_jstring(ls[0]) + seq![0x2cu8] + (spec_links_json(ls.drop_first())
            + seq![0x2cu8] + spec_jstring(x)) =~= (spec_jstring(ls[0]) + seq![0x2cu8]
            + spec_links_json(ls.drop_first())) + seq![0x2cu8] + spec_jstring(x));
    }
}

/// Appends the complete encoded handshake object for `target` and `links`.
pub fn encode_fsa_into(out: &mut Vec<u8>, target: &[u8], links: &Vec<Vec<u8>>)
    ensures
        final(out)@ == old(out)@ + spec_fsa_json(target@, spec_vecs_view(links@)),
{
    push_fsa_prefix(out);
    jstring_into(out, target);
    push_fsa_mid(out);
    let ghost base = out@;
    let ghost lsv = spec_vecs_view(links@);
    let n = links.len();
    let mut k: usize = 0;
    while k < n
        invariant
            n == links@.len(),
            k <= n,
            lsv == spec_vecs_view(links@),
            lsv.len() == n,
            out@ == base + spec_links_json(lsv.subrange(0, k as int)),
        decreases n - k,
    {
        if k > 0 {
            out.push(0x2c);
        }
        let ghost pre = lsv.subrange(0, k as int);
        jstring_into(out, links[k].as_slice());
        proof {
            assert(lsv.subrange(0, k + 1) =~= pre.push(lsv[k as int]));
            assert(lsv[k as int] == links@[k as int]@);
            lemma_links_json_snoc(pre, lsv[k as int]);
            if k == 0 {
                assert(spec_links_json(Seq::<Seq<u8>>::empty()) =~= Seq::<u8>::empty());
                assert(out@ =~= base + spec_links_json(lsv.subrange(0, k + 1)));
            } else {
                assert(out@ =~= base + spec_links_json(lsv.subrange(0, k + 1)));
            }
        }
        k = k + 1;
    }
    out.push(0x5d);
    out.push(0x7d);
    proof {
        assert(lsv.subrange(0, n as int) =~= lsv);
        assert(out@ =~= old(out)@ + spec_fsa_json(target@, lsv));
    }
}

/// Joins already-parsed hops with the outcome of parsing the rest of the
/// hop list.
pub open spec fn spec_join_links(prefix: Seq<Seq<u8>>, rest: Option<(Seq<Seq<u8>>, int)>) -> Option<
    (Seq<Seq<u8>>, int),
> {
    match rest {
        Some((ss, k)) => Some((prefix + ss, k)),
        None => None,
    }
}

proof fn lemma_join_links_cons(prefix: Seq<Seq<u8>>, x: Seq<u8>, rest: Option<(Seq<Seq<u8>>, int)>)
    ensures
        spec_join_links(prefix, spec_cons_link(x, rest)) == spec_join_links(prefix.push(x), rest),
{
    match rest {
        Some((ss, k)) => {
            assert(prefix + (seq![x] + ss) =~= prefix.push(x) + ss);
        },
        None => {},
    }
}

/// Parses the hop list starting just after the opening bracket at `start`.
/// On success the returned vectors hold the decoded hops and the position
/// just after the closing bracket.
pub fn parse_links(b: &Vec<u8>, start: usize) -> (r: Result<(Vec<Vec<u8>>, usize), NfError>)
    ensures
        r matches Ok((v, j)) ==> (spec_parse_links(b@, start as int) matches Some((ls, jj))
            && jj == j && ls.len() == v@.len() && (forall|k: int|
            0 <= k < ls.len() ==> v@[k]@ == ls[k]) && start < j <= b@.len()),
        r is Err ==> spec_parse_links(b@, start as int) is None,
{
    let n = b.len();
    if start >= n {
        return Err(NfError::E(String::from_str("json hop list is cut short.")));
    }
    if b[start] == 0x5d {
        let v: Vec<Vec<u8>> = Vec::new();
        return Ok((v, start + 1));
    }
    if b[start] != 0x22 {
        return Err(NfError::E(String::from_str("json hop list expects a string.")));
    }
    let first = match parse_string_body(b, start + 1) {
        Ok(p) => p,
        Err(e) => {
            return Err(e);
        },
    };
    let (s0, j0) = first;
    let mut acc: Vec<Vec<u8>> = Vec::new();
    let ghost mut gacc: Seq<Seq<u8>> = seq![s0@];
    acc.push(s0);
    let mut i: usize = j0;
    proof {
        assert(spec_parse_links(b@, start as int) == spec_cons_link(
            gacc[0],
            spec_parse_links_rest(b@, i as int),
        ));
        assert(spec_join_links(gacc, spec_parse_links_rest(b@, i as int)) == spec_cons_link(
            gacc[0],
            spec_parse_links_rest(b@, i as int),
        )) by {
            match spec_parse_links_rest(b@, i as int) {
                Some((ss, k)) => {
                    assert(gacc + ss =~= seq![gacc[0]] + ss);
                },
                None => {},
            }
        }
    }
    loop
        invariant
            n == b@.len(),
            start < i <= n,
            acc@.len() == gacc.len(),
            forall|q: int| 0 <= q < gacc.len() ==> acc@[q]@ == gacc[q],
            spec_parse_links(b@, start as int) == spec_join_links(
                gacc,
                spec_parse_links_rest(b@, i as int),
            ),
        decreases n - i,
    {
        if i >= n {
            return Err(NfError::E(String::from_str("json hop list is not terminated.")));
        }
        let c = b[i];
        if c == 0x5d {
            proof {
                assert(spec_parse_links_rest(b@, i as int) == Some((Seq::<Seq<u8>>::empty(), i + 1)));
                assert(gacc + Seq::<Seq<u8>>::empty() =~= gacc);
            }
            return Ok((acc, i + 1));
        }
        if c != 0x2c {
            return Err(NfError::E(String::from_str("json hop list expects a separator.")));
        }
        if i + 1 >= n || b[i + 1] != 0x22 {
            return Err(NfError::E(String::from_str("json hop list expects a string.")));
        }
        let nxt = match parse_string_body(b, i + 2) {
            Ok(p) => p,
            Err(e) => {
                return Err(e);
            },
        };
        let (sx, jx) = nxt;
        proof {
            assert(spec_parse_links_rest(b@, i as int) == spec_cons_link(
                sx@,
                spec_parse_links_rest(b@, jx as int),
            ));
            lemma_join_links_cons(gacc, sx@, spec_parse_links_rest(b@, jx as int));
        }
        acc.push(sx);
        proof {
            gacc = gacc.push(sx@);
        }
        i = jx;
    }
}

/// Parses a complete encoded handshake object: the whole buffer must hold
/// exactly one object. Yields the target address bytes and the hop list.
pub fn parse_fsa_bytes(b: &Vec<u8>) -> (r: Result<(Vec<u8>, Vec<Vec<u8>>), NfError>)
    ensures
        r matches Ok((t, v)) ==> (spec_parse_fsa(b@) matches Some((st, sls)) && st == t@
            && sls.len() == v@.len() && (forall|k: int| 0 <= k < sls.len() ==> v@[k]@ == sls[k])),
        r is Err ==> spec_parse_fsa(b@) is None,
{
    let n = b.len();
    let mut prefix: Vec<u8> = Vec::new();
    push_fsa_prefix(&mut prefix);
    let plen = prefix.len();
    if !match_at(b, 0, &prefix) {
        return Err(NfError::E(String::from_str("json handshake does not open as expected.")));
    }
    if plen >= n || b[plen] != 0x22 {
        return Err(NfError::E(String::from_str("json handshake target is not a string.")));
    }
    let parsed_t = match parse_string_body(b, plen + 1) {
        Ok(p) => p,
        Err(e) => {
            return Err(e);
        },
    };
    let (t, j) = parsed_t;
    let mut mid: Vec<u8> = Vec::new();
    push_fsa_mid(&mut mid);
    let mlen = mid.len();
    if !match_at(b, j, &mid) {
        return Err(NfError::E(String::from_str("json handshake hop list is missing.")));
    }
    let parsed_ls = match parse_links(b, j + mlen) {
        Ok(p) => p,
        Err(e) => {
            return Err(e);
        },
    };
    let (v, k) = parsed_ls;
    if !(k < n && b[k] == 0x7d && k + 1 == n) {
        return Err(NfError::E(String::from_str("json handshake does not end as expected.")));
    }
    Ok((t, v))
}


// ---------------------------------------------------------------------------
// Decimal integers
// ---------------------------------------------------------------------------
/// True for the ASCII digits.
pub open spec fn spec_is_digit(c: u8) -> bool {
    0x30 <= c <= 0x39
}

/// The decimal digits of `n`, most significant first.
pub open spec fn spec_dec_nat(n: int) -> Seq<u8>
    recommends
        n >= 0,
    decreases n,
{
    if n < 10 {
        seq![(0x30 + if n >= 0 { n } else { 0 }) as u8]
    } else {
        spec_dec_nat(n / 10).push((0x30 + n % 10) as u8)
    }
}

/// The decimal encoding of a possibly negative integer.
pub open spec fn spec_int_json(v: int) -> Seq<u8> {
    if v < 0 {
        seq![0x2du8] + spec_dec_nat(-v)
    } else {
        spec_dec_nat(v)
    }
}

/// Consumes a run of digits starting at `i`, folding them onto `acc`;
/// yields the value and the position after the run.
pub open spec fn spec_parse_digits_acc(b: Seq<u8>, i: int, acc: int) -> (int, int)
    decreases b.len() - i,
    when i >= 0
{
    if i < b.len() && spec_is_digit(b[i]) {
        spec_parse_digits_acc(b, i + 1, acc * 10 + (b[i] - 0x30))
    } else {
        (acc, i)
    }
}

/// Folding digits never shrinks a non-negative accumulator, and the run
/// ends within the buffer.
pub proof fn lemma_parse_digits_acc_props(b: Seq<u8>, i: int, acc: int)
    requires
        0 <= i,
    ensures
        i <= spec_parse_digits_acc(b, i, acc).1,
        i <= b.len() ==> spec_parse_digits_acc(b, i, acc).1 <= b.len(),
        acc >= 0 ==> spec_parse_digits_acc(b, i, acc).0 >= acc,
    decreases b.len() - i,
{
    if i < b.len() && spec_is_digit(b[i]) {
        lemma_parse_digits_acc_props(b, i + 1, acc * 10 + (b[i] - 0x30));
        if acc >= 0 {
            assert(acc * 10 >= acc) by (nonlinear_arith)
                requires
                    acc >= 0,
            ;
        }
    }
}

/// Parses a decimal integer with an optional leading minus sign.
pub open spec fn spec_parse_int(b: Seq<u8>, i: int) -> Option<(int, int)>
    recommends
        i >= 0,
{
    if i < b.len() && b[i] == 0x2d {
        if i + 1 < b.len() && spec_is_digit(b[i + 1]) {
            let pr = spec_parse_digits_acc(b, i + 1, 0);
            Some((-pr.0, pr.1))
        } else {
            None
        }
    } else if i < b.len() && spec_is_digit(b[i]) {
        Some(spec_parse_digits_acc(b, i, 0))
    } else {
        None
    }
}

/// Appends the decimal digits of `n`, most significant first.
fn push_dec_u64(out: &mut Vec<u8>, n: u64)
    ensures
        final(out)@ == old(out)@ + spec_dec_nat(n as int),
    decreases n,
{
    if n < 10 {
        out.push(0x30 + (n as u8));
        assert(out@ =~= old(out)@ + spec_dec_nat(n as int));
    } else {
        push_dec_u64(out, n / 10);
        out.push(0x30 + ((n % 10) as u8));
        assert(out@ =~= old(out)@ + spec_dec_nat(n as int));
    }
}

/// Appends the decimal encoding of `v`.
pub fn push_dec_i32(out: &mut Vec<u8>, v: i32)
    ensures
        final(out)@ == old(out)@ + spec_int_json(v as int),
{
    if v < 0 {
        out.push(0x2d);
        let m: u64 = (-(v as i64)) as u64;
        push_dec_u64(out, m);
        assert(out@ =~= old(out)@ + spec_int_json(v as int));
    } else {
        push_dec_u64(out, v as u64);
    }
}

/// True when a decimal integer stands at `i` and its value fits an `i32`.
pub open spec fn spec_parse_int_fits_i32(b: Seq<u8>, i: int) -> bool {
    match spec_parse_int(b, i) {
        Some(pr) => i32::MIN <= pr.0 <= i32::MAX,
        None => false,
    }
}

/// Parses a decimal integer at `start` into an `i32`; fails if there is no
/// integer there or its value does not fit.
pub fn parse_int_i32(b: &Vec<u8>, start: usize) -> (r: Result<(i32, usize), NfError>)
    ensures
        r matches Ok((v, j)) ==> spec_parse_int(b@, start as int) == Some((v as int, j as int))
            && start < j <= b@.len(),
        r is Err ==> !spec_parse_int_fits_i32(b@, start as int),
{
    let n = b.len();
    if start >= n {
        return Err(NfError::E(String::from_str("json number is missing.")));
    }
    let neg = b[start] == 0x2d;
    let d0: usize = if neg {
        start + 1
    } else {
        start
    };
    if d0 >= n || !(0x30 <= b[d0] && b[d0] <= 0x39) {
        return Err(NfError::E(String::from_str("json number is malformed.")));
    }
    let mut acc: u64 = 0;
    let mut i: usize = d0;
    while i < n && 0x30 <= b[i] && b[i] <= 0x39
        invariant
            n == b@.len(),
            start <= d0 <= i <= n,
            d0 < n,
            0x30 <= b@[d0 as int] <= 0x39,
            i == d0 ==> acc == 0,
            neg == (b@[start as int] == 0x2d),
            neg ==> d0 == start + 1,
            !neg ==> d0 == start,
            acc <= 0xffff_ffffu64 * 10 + 9,
            spec_parse_digits_acc(b@, d0 as int, 0) == spec_parse_digits_acc(
                b@,
                i as int,
                acc as int,
            ),
        decreases n - i,
    {
        if acc > 0xffff_ffff {
            proof {
                lemma_parse_digits_acc_props(b@, i as int, acc as int);
                lemma_int_too_large(b@, start as int, d0 as int, neg, acc as int);
            }
            return Err(NfError::E(String::from_str("json number does not fit.")));
        }
        proof {
            assert(spec_parse_digits_acc(b@, i as int, acc as int) == spec_parse_digits_acc(
                b@,
                i + 1,
                acc as int * 10 + (b@[i as int] - 0x30),
            ));
        }
        acc = acc * 10 + ((b[i] - 0x30) as u64);
        i = i + 1;
    }
    proof {
        assert(spec_parse_digits_acc(b@, i as int, acc as int) == (acc as int, i as int));
        assert(i > d0);
    }
    if neg {
        if acc > 0x8000_0000 {
            proof {
                lemma_int_too_large(b@, start as int, d0 as int, neg, acc as int);
            }
            return Err(NfError::E(String::from_str("json number does not fit.")));
        }
        let v: i32 = (-(acc as i64)) as i32;
        proof {
            assert(spec_parse_int(b@, start as int) == Some((-(acc as int), i as int)));
        }
        Ok((v, i))
    } else {
        if acc > 0x7fff_ffff {
            proof {
                lemma_int_too_large(b@, start as int, d0 as int, neg, acc as int);
            }
            return Err(NfError::E(String::from_str("json number does not fit.")));
        }
        Ok((acc as i32, i))
    }
}

/// When the digit fold from `d0` reaches a value beyond the 32-bit range,
/// the integer at `start` does not fit an `i32`.
proof fn lemma_int_too_large(b: Seq<u8>, start: int, d0: int, neg: bool, lower: int)
    requires
        0 <= start < b.len(),
        neg == (b[start] == 0x2d),
        d0 == if neg { start + 1 } else { start },
        d0 < b.len(),
        spec_is_digit(b[d0]),
        if neg { lower > 0x8000_0000 } else { lower > 0x7fff_ffff },
        spec_parse_digits_acc(b, d0, 0).0 >= lower,
    ensures
        !spec_parse_int_fits_i32(b, start),
{
    let pr = spec_parse_digits_acc(b, d0, 0);
    if neg {
        assert(b[start] == 0x2d);
        assert(start + 1 < b.len() && spec_is_digit(b[start + 1]));
        assert(d0 == start + 1);
        assert(spec_parse_int(b, start) == Some(
            (-spec_parse_digits_acc(b, start + 1, 0).0, spec_parse_digits_acc(b, start + 1, 0).1),
        ));
        assert(-pr.0 <= -lower);
        assert(-lower < i32::MIN);
    } else {
        assert(b[start] != 0x2d && spec_is_digit(b[start]));
        assert(spec_parse_int(b, start) == Some(spec_parse_digits_acc(b, start, 0)));
    }
}


// ---------------------------------------------------------------------------
// Skipping one JSON value
// ---------------------------------------------------------------------------
/// The end of the run of digits starting at `i`.
pub open spec fn spec_skip_digits(b: Seq<u8>, i: int) -> int
    decreases b.len() - i,
    when i >= 0
{
    if i < b.len() && spec_is_digit(b[i]) {
        spec_skip_digits(b, i + 1)
    } else {
        i
    }
}

/// A digit run ends at or after its start, within the buffer.
pub proof fn lemma_skip_digits_bounds(b: Seq<u8>, i: int)
    requires
        i >= 0,
    ensures
        i <= spec_skip_digits(b, i),
        i <= b.len() ==> spec_skip_digits(b, i) <= b.len(),
    decreases b.len() - i,
{
    if i < b.len() && spec_is_digit(b[i]) {
        lemma_skip_digits_bounds(b, i + 1);
    }
}

/// Skips a fraction part if one stands at `i`; `None` when a decimal point
/// is not followed by a digit.
pub open spec fn spec_skip_frac(b: Seq<u8>, i: int) -> Option<int> {
    if 0 <= i < b.len() && b[i] == 0x2e {
        let t = spec_skip_digits(b, i + 1);
        if t > i + 1 {
            Some(t)
        } else {
            None
        }
    } else {
        Some(i)
    }
}

/// Skips an exponent part if one stands at `i`.
pub open spec fn spec_skip_exp(b: Seq<u8>, i: int) -> Option<int> {
    if 0 <= i < b.len() && (b[i] == 0x65 || b[i] == 0x45) {
        let i1 = if i + 1 < b.len() && (b[i + 1] == 0x2b || b[i + 1] == 0x2d) {
            i + 2
        } else {
            i + 1
        };
        let t = spec_skip_digits(b, i1);
        if t > i1 {
            Some(t)
        } else {
            None
        }
    } else {
        Some(i)
    }
}

/// Skips a complete JSON number starting at `i`.
pub open spec fn spec_skip_number(b: Seq<u8>, i: int) -> Option<int>
    recommends
        i >= 0,
{
    let i0 = if i < b.len() && b[i] == 0x2d {
        i + 1
    } else {
        i
    };
    let d = spec_skip_digits(b, i0);
    if d == i0 {
        None
    } else {
        match spec_skip_frac(b, d) {
            Some(f) => spec_skip_exp(b, f),
            None => None,
        }
    }
}

/// A skipped number ends after its start, within the buffer.
pub proof fn lemma_skip_number_bounds(b: Seq<u8>, i: int)
    requires
        0 <= i <= b.len(),
    ensures
        spec_skip_number(b, i) matches Some(j) ==> i < j <= b.len(),
{
    let i0 = if i < b.len() && b[i] == 0x2d {
        i + 1
    } else {
        i
    };
    lemma_skip_digits_bounds(b, i0);
    let d = spec_skip_digits(b, i0);
    if d != i0 {
        match spec_skip_frac(b, d) {
            Some(f) => {
                if d < b.len() && b[d] == 0x2e {
                    lemma_skip_digits_bounds(b, d + 1);
                }
                match spec_skip_exp(b, f) {
                    Some(j) => {
                        if f < b.len() && (b[f] == 0x65 || b[f] == 0x45) {
                            lemma_skip_digits_bounds(b, f + 1);
                            lemma_skip_digits_bounds(b, f + 2);
                        }
                    },
                    None => {},
                }
            },
            None => {},
        }
    }
}

/// Skips one complete JSON value starting at `i`: a string, object, array,
/// number, or one of the three literals.
pub open spec fn spec_skip_value(b: Seq<u8>, i: int) -> Option<int>
    decreases b.len() + 1 - i, 0int,
    when i >= 0
{
    if i >= b.len() {
        None
    } else if b[i] == 0x22 {
        match spec_parse_string_body(b, i + 1) {
            Some((x, j)) => Some(j),
            None => None,
        }
    } else if b[i] == 0x5b {
        spec_skip_array(b, i + 1)
    } else if b[i] == 0x7b {
        spec_skip_object(b, i + 1)
    } else if b[i] == 0x74 {
        if spec_match_at(b, i, seq![0x74u8, 0x72u8, 0x75u8, 0x65u8]) {
            Some(i + 4)
        } else {
            None
        }
    } else if b[i] == 0x66 {
        if spec_match_at(b, i, seq![0x66u8, 0x61u8, 0x6cu8, 0x73u8, 0x65u8]) {
            Some(i + 5)
        } else {
            None
        }
    } else if b[i] == 0x6e {
        if spec_match_at(b, i, seq![0x6eu8, 0x75u8, 0x6cu8, 0x6cu8]) {
            Some(i + 4)
        } else {
            None
        }
    } else if b[i] == 0x2d || spec_is_digit(b[i]) {
        spec_skip_number(b, i)
    } else {
        None
    }
}

/// Skips the contents of an array from just after the opening bracket.
pub open spec fn spec_skip_array(b: Seq<u8>, i: int) -> Option<int>
    decreases b.len() + 1 - i, 1int,
    when i >= 0
{
    if i >= b.len() {
        None
    } else if b[i] == 0x5d {
        Some(i + 1)
    } else {
        match spec_skip_value(b, i) {
            Some(j) => spec_skip_array_rest(b, if i < j && j <= b.len() { j } else { i + 1 }),
            None => None,
        }
    }
}

/// Skips the rest of an array after one complete element.
pub open spec fn spec_skip_array_rest(b: Seq<u8>, i: int) -> Option<int>
    decreases b.len() + 1 - i, 2int,
    when i >= 0
{
    if i >= b.len() {
        None
    } else if b[i] == 0x5d {
        Some(i + 1)
    } else if b[i] == 0x2c {
        match spec_skip_value(b, i + 1) {
            Some(j) => spec_skip_array_rest(b, if i + 1 < j && j <= b.len() { j } else { i + 2 }),
            None => None,
        }
    } else {
        None
    }
}

/// Skips the contents of an object from just after the opening brace.
pub open spec fn spec_skip_object(b: Seq<u8>, i: int) -> Option<int>
    decreases b.len() + 1 - i, 1int,
    when i >= 0
    via spec_skip_object_dec
{
    if i >= b.len() {
        None
    } else if b[i] == 0x7d {
        Some(i + 1)
    } else if b[i] == 0x22 {
        match spec_parse_string_body(b, i + 1) {
            Some((x, j)) => spec_skip_member_value(b, j),
            None => None,
        }
    } else {
        None
    }
}

/// Skips a member's value after its key: a colon, the value, then the rest
/// of the object.
pub open spec fn spec_skip_member_value(b: Seq<u8>, i: int) -> Option<int>
    decreases b.len() + 1 - i, 2int,
    when i >= 0
{
    if 0 <= i < b.len() && b[i] == 0x3a {
        match spec_skip_value(b, i + 1) {
            Some(j) => spec_skip_object_rest(b, if i + 1 < j && j <= b.len() { j } else { i + 2 }),
            None => None,
        }
    } else {
        None
    }
}

/// Skips the rest of an object after one complete member.
pub open spec fn spec_skip_object_rest(b: Seq<u8>, i: int) -> Option<int>
    decreases b.len() + 1 - i, 3int,
    when i >= 0
    via spec_skip_object_rest_dec
{
    if i >= b.len() {
        None
    } else if b[i] == 0x7d {
        Some(i + 1)
    } else if b[i] == 0x2c {
        if i + 1 < b.len() && b[i + 1] == 0x22 {
            match spec_parse_string_body(b, i + 2) {
                Some((x, j)) => spec_skip_member_value(b, j),
                None => None,
            }
        } else {
            None
        }
    } else {
        None
    }
}

#[via_fn]
proof fn spec_skip_object_dec(b: Seq<u8>, i: int) {
    if 0 <= i < b.len() && b[i] == 0x22 {
        lemma_parse_string_body_bounds(b, i + 1);
    }
}

#[via_fn]
proof fn spec_skip_object_rest_dec(b: Seq<u8>, i: int) {
    if 0 <= i < b.len() && b[i] == 0x2c && i + 1 < b.len() && b[i + 1] == 0x22 {
        lemma_parse_string_body_bounds(b, i + 2);
    }
}

/// Compares four bytes of `b` at `i` against the given literal bytes.
fn match_lit4(b: &Vec<u8>, i: usize, c0: u8, c1: u8, c2: u8, c3: u8) -> (r: bool)
    requires
        i <= b@.len(),
    ensures
        r == spec_match_at(b@, i as int, seq![c0, c1, c2, c3]),
{
    let n = b.len();
    let ghost lit = seq![c0, c1, c2, c3];
    if n - i < 4 {
        return false;
    }
    let r = b[i] == c0 && b[i + 1] == c1 && b[i + 2] == c2 && b[i + 3] == c3;
    proof {
        let sub = b@.subrange(i as int, i + 4);
        assert(sub[0] == b@[i as int] && sub[1] == b@[i + 1] && sub[2] == b@[i + 2] && sub[3]
            == b@[i + 3]);
        if r {
            assert(sub =~= lit);
        }
    }
    r
}

/// Compares five bytes of `b` at `i` against the given literal bytes.
fn match_lit5(b: &Vec<u8>, i: usize, c0: u8, c1: u8, c2: u8, c3: u8, c4: u8) -> (r: bool)
    requires
        i <= b@.len(),
    ensures
        r == spec_match_at(b@, i as int, seq![c0, c1, c2, c3, c4]),
{
    let n = b.len();
    let ghost lit = seq![c0, c1, c2, c3, c4];
    if n - i < 5 {
        return false;
    }
    let r = b[i] == c0 && b[i + 1] == c1 && b[i + 2] == c2 && b[i + 3] == c3 && b[i + 4] == c4;
    proof {
        let sub = b@.subrange(i as int, i + 5);
        assert(sub[0] == b@[i as int] && sub[1] == b@[i + 1] && sub[2] == b@[i + 2] && sub[3]
            == b@[i + 3] && sub[4] == b@[i + 4]);
        if r {
            assert(sub =~= lit);
        }
    }
    r
}

/// Walks past the run of digits starting at `start`.
fn skip_digits_exec(b: &Vec<u8>, start: usize) -> (j: usize)
    requires
        start <= b@.len(),
    ensures
        j as int == spec_skip_digits(b@, start as int),
        start <= j <= b@.len(),
{
    let n = b.len();
    let mut i = start;
    while i < n && 0x30 <= b[i] && b[i] <= 0x39
        invariant
            n == b@.len(),
            start <= i <= n,
            spec_skip_digits(b@, start as int) == spec_skip_digits(b@, i as int),
        decreases n - i,
    {
        i = i + 1;
    }
    i
}

/// Walks past one complete JSON number starting at `i`.
fn skip_number_exec(b: &Vec<u8>, i: usize) -> (r: Result<usize, NfError>)
    requires
        i <= b@.len(),
    ensures
        r matches Ok(j) ==> spec_skip_number(b@, i as int) == Some(j as int) && i < j <= b@.len(),
        r is Err ==> spec_skip_number(b@, i as int) is None,
{
    let n = b.len();
    let i0: usize = if i < n && b[i] == 0x2d {
        i + 1
    } else {
        i
    };
    let d = skip_digits_exec(b, i0);
    if d == i0 {
        return Err(NfError::E(String::from_str("json number has no digits.")));
    }
    let f: usize = if d < n && b[d] == 0x2e {
        let t = skip_digits_exec(b, d + 1);
        if t == d + 1 {
            return Err(NfError::E(String::from_str("json number fraction has no digits.")));
        }
        t
    } else {
        d
    };
    assert(spec_skip_frac(b@, d as int) == Some(f as int));
    let e: usize = if f < n && (b[f] == 0x65 || b[f] == 0x45) {
        let i1: usize = if f + 1 < n && (b[f + 1] == 0x2b || b[f + 1] == 0x2d) {
            f + 2
        } else {
            f + 1
        };
        let t = skip_digits_exec(b, i1);
        if t == i1 {
            return Err(NfError::E(String::from_str("json number exponent has no digits.")));
        }
        t
    } else {
        f
    };
    assert(spec_skip_exp(b@, f as int) == Some(e as int));
    Ok(e)
}

/// Walks past one complete JSON value starting at `i`.
pub fn skip_value_exec(b: &Vec<u8>, i: usize) -> (r: Result<usize, NfError>)
    requires
        i <= b@.len(),
    ensures
        r matches Ok(j) ==> spec_skip_value(b@, i as int) == Some(j as int) && i < j <= b@.len(),
        r is Err ==> spec_skip_value(b@, i as int) is None,
    decreases b@.len() + 1 - i, 0int,
{
    let n = b.len();
    if i >= n {
        return Err(NfError::E(String::from_str("json value is missing.")));
    }
    let c = b[i];
    if c == 0x22 {
        match parse_string_body(b, i + 1) {
            Ok((_x, j)) => Ok(j),
            Err(e) => Err(e),
        }
    } else if c == 0x5b {
        skip_array_exec(b, i + 1)
    } else if c == 0x7b {
        skip_object_exec(b, i + 1)
    } else if c == 0x74 {
        if match_lit4(b, i, 0x74, 0x72, 0x75, 0x65) {
            Ok(i + 4)
        } else {
            Err(NfError::E(String::from_str("json literal is malformed.")))
        }
    } else if c == 0x66 {
        if match_lit5(b, i, 0x66, 0x61, 0x6c, 0x73, 0x65) {
            Ok(i + 5)
        } else {
            Err(NfError::E(String::from_str("json literal is malformed.")))
        }
    } else if c == 0x6e {
        if match_lit4(b, i, 0x6e, 0x75, 0x6c, 0x6c) {
            Ok(i + 4)
        } else {
            Err(NfError::E(String::from_str("json literal is malformed.")))
        }
    } else if c == 0x2d || (0x30 <= c && c <= 0x39) {
        skip_number_exec(b, i)
    } else {
        Err(NfError::E(String::from_str("json value is malformed.")))
    }
}

/// Walks past the contents of an array from just after the opening bracket.
fn skip_array_exec(b: &Vec<u8>, i: usize) -> (r: Result<usize, NfError>)
    requires
        i <= b@.len(),
    ensures
        r matches Ok(j) ==> spec_skip_array(b@, i as int) == Some(j as int) && i < j <= b@.len(),
        r is Err ==> spec_skip_array(b@, i as int) is None,
    decreases b@.len() + 1 - i, 1int,
{
    let n = b.len();
    if i >= n {
        return Err(NfError::E(String::from_str("json array is not terminated.")));
    }
    if b[i] == 0x5d {
        return Ok(i + 1);
    }
    match skip_value_exec(b, i) {
        Ok(j) => skip_array_rest_exec(b, j),
        Err(e) => Err(e),
    }
}

/// Walks past the rest of an array after one complete element.
fn skip_array_rest_exec(b: &Vec<u8>, i: usize) -> (r: Result<usize, NfError>)
    requires
        i <= b@.len(),
    ensures
        r matches Ok(j) ==> spec_skip_array_rest(b@, i as int) == Some(j as int) && i < j
            <= b@.len(),
        r is Err ==> spec_skip_array_rest(b@, i as int) is None,
    decreases b@.len() + 1 - i, 2int,
{
    let n = b.len();
    if i >= n {
        return Err(NfError::E(String::from_str("json array is not terminated.")));
    }
    if b[i] == 0x5d {
        return Ok(i + 1);
    }
    if b[i] != 0x2c {
        return Err(NfError::E(String::from_str("json array expects a separator.")));
    }
    match skip_value_exec(b, i + 1) {
        Ok(j) => skip_array_rest_exec(b, j),
        Err(e) => Err(e),
    }
}

/// Walks past the contents of an object from just after the opening brace.
fn skip_object_exec(b: &Vec<u8>, i: usize) -> (r: Result<usize, NfError>)
    requires
        i <= b@.len(),
    ensures
        r matches Ok(j) ==> spec_skip_object(b@, i as int) == Some(j as int) && i < j <= b@.len(),
        r is Err ==> spec_skip_object(b@, i as int) is None,
    decreases b@.len() + 1 - i, 1int,
{
    let n = b.len();
    if i >= n {
        return Err(NfError::E(String::from_str("json object is not terminated.")));
    }
    if b[i] == 0x7d {
        return Ok(i + 1);
    }
    if b[i] != 0x22 {
        return Err(NfError::E(String::from_str("json object expects a key.")));
    }
    match parse_string_body(b, i + 1) {
        Ok((_k, j)) => skip_member_value_exec(b, j),
        Err(e) => Err(e),
    }
}

/// Walks past a member's value after its key, then the rest of the object.
fn skip_member_value_exec(b: &Vec<u8>, i: usize) -> (r: Result<usize, NfError>)
    requires
        i <= b@.len(),
    ensures
        r matches Ok(j) ==> spec_skip_member_value(b@, i as int) == Some(j as int) && i < j
            <= b@.len(),
        r is Err ==> spec_skip_member_value(b@, i as int) is None,
    decreases b@.len() + 1 - i, 2int,
{
    let n = b.len();
    if i >= n || b[i] != 0x3a {
        return Err(NfError::E(String::from_str("json object expects a colon.")));
    }
    match skip_value_exec(b, i + 1) {
        Ok(j) => skip_object_rest_exec(b, j),
        Err(e) => Err(e),
    }
}

/// Walks past the rest of an object after one complete member.
fn skip_object_rest_exec(b: &Vec<u8>, i: usize) -> (r: Result<usize, NfError>)
    requires
        i <= b@.len(),
    ensures
        r matches Ok(j) ==> spec_skip_object_rest(b@, i as int) == Some(j as int) && i < j
            <= b@.len(),
        r is Err ==> spec_skip_object_rest(b@, i as int) is None,
    decreases b@.len() + 1 - i, 3int,
{
    let n = b.len();
    if i >= n {
        return Err(NfError::E(String::from_str("json object is not terminated.")));
    }
    if b[i] == 0x7d {
        return Ok(i + 1);
    }
    if b[i] != 0x2c {
        return Err(NfError::E(String::from_str("json object expects a separator.")));
    }
    if i + 1 >= n || b[i + 1] != 0x22 {
        return Err(NfError::E(String::from_str("json object expects a key.")));
    }
    match parse_string_body(b, i + 2) {
        Ok((_k, j)) => skip_member_value_exec(b, j),
        Err(e) => Err(e),
    }
}


// ---------------------------------------------------------------------------
// The status envelope grammar
// ---------------------------------------------------------------------------
/// The opening of the status object up to the value of its first field:
/// `{"code":`.
pub open spec fn spec_status_prefix() -> Seq<u8> {
    seq![0x7bu8, 0x22u8, 0x63u8, 0x6fu8, 0x64u8, 0x65u8, 0x22u8, 0x3au8]
}

/// The key of the message field with its separators: `,"msg":`.
pub open spec fn spec_status_msg_key() -> Seq<u8> {
    seq![0x2cu8, 0x22u8, 0x6du8, 0x73u8, 0x67u8, 0x22u8, 0x3au8]
}

/// The key of the data field with its separators: `,"data":`.
pub open spec fn spec_status_data_key() -> Seq<u8> {
    seq![0x2cu8, 0x22u8, 0x64u8, 0x61u8, 0x74u8, 0x61u8, 0x22u8, 0x3au8]
}

/// The complete encoded status object: a code, a message, and the raw
/// bytes of one JSON value in the data field.
pub open spec fn spec_status_json(code: int, msg: Seq<u8>, data: Seq<u8>) -> Seq<u8> {
    spec_status_prefix() + spec_int_json(code) + spec_status_msg_key() + spec_jstring(msg)
        + spec_status_data_key() + data + seq![0x7du8]
}

/// Parses a complete encoded status object, yielding the code, the message
/// bytes, and the raw bytes of the data value. The whole buffer must be
/// consumed.
pub open spec fn spec_parse_status(b: Seq<u8>) -> Option<(int, Seq<u8>, Seq<u8>)> {
    let p = spec_status_prefix();
    if spec_match_at(b, 0, p) {
        match spec_parse_int(b, p.len() as int) {
            Some((v, j)) => {
                let mk = spec_status_msg_key();
                if spec_match_at(b, j, mk) && j + mk.len() < b.len() && b[j + mk.len()] == 0x22 {
                    match spec_parse_string_body(b, j + mk.len() + 1) {
                        Some((msg, k)) => {
                            let dk = spec_status_data_key();
                            if spec_match_at(b, k, dk) {
                                match spec_skip_value(b, k + dk.len()) {
                                    Some(e) => if e < b.len() && b[e] == 0x7d && e + 1 == b.len() {
                                        Some((v, msg, b.subrange(k + dk.len(), e)))
                                    } else {
                                        None
                                    },
                                    None => None,
                                }
                            } else {
                                None
                            }
                        },
                        None => None,
                    }
                } else {
                    None
                }
            },
            None => None,
        }
    } else {
        None
    }
}

/// True when a status object stands in `b` and its code fits an `i32`.
pub open spec fn spec_parse_status_fits_i32(b: Seq<u8>) -> bool {
    match spec_parse_status(b) {
        Some((v, msg, data)) => i32::MIN <= v <= i32::MAX,
        None => false,
    }
}

fn push_status_prefix(out: &mut Vec<u8>)
    ensures
        final(out)@ == old(out)@ + spec_status_prefix(),
{
    out.push(0x7b);
    out.push(0x22);
    out.push(0x63);
    out.push(0x6f);
    out.push(0x64);
    out.push(0x65);
    out.push(0x22);
    out.push(0x3a);
    assert(out@ =~= old(out)@ + spec_status_prefix());
}

fn push_status_msg_key(out: &mut Vec<u8>)
    ensures
        final(out)@ == old(out)@ + spec_status_msg_key(),
{
    out.push(0x2c);
    out.push(0x22);
    out.push(0x6d);
    out.push(0x73);
    out.push(0x67);
    out.push(0x22);
    out.push(0x3a);
    assert(out@ =~= old(out)@ + spec_status_msg_key());
}

fn push_status_data_key(out: &mut Vec<u8>)
    ensures
        final(out)@ == old(out)@ + spec_status_data_key(),
{
    out.push(0x2c);
    out.push(0x22);
    out.push(0x64);
    out.push(0x61);
    out.push(0x74);
    out.push(0x61);
    out.push(0x22);
    out.push(0x3a);
    assert(out@ =~= old(out)@ + spec_status_data_key());
}

/// Appends the complete encoded status object.
pub fn encode_status_into(out: &mut Vec<u8>, code: i32, msg: &[u8], data: &[u8])
    ensures
        final(out)@ == old(out)@ + spec_status_json(code as int, msg@, data@),
{
    push_status_prefix(out);
    push_dec_i32(out, code);
    push_status_msg_key(out);
    jstring_into(out, msg);
    push_status_data_key(out);
    crate::wire::append_bytes(out, data);
    out.push(0x7d);
    assert(out@ =~= old(out)@ + spec_status_json(code as int, msg@, data@));
}

/// Copies the bytes of `b` between `from` and `to`.
pub fn copy_range(b: &Vec<u8>, from: usize, to: usize) -> (r: Vec<u8>)
    requires
        from <= to <= b@.len(),
    ensures
        r@ == b@.subrange(from as int, to as int),
{
    let mut r: Vec<u8> = Vec::new();
    let mut i = from;
    while i < to
        invariant
            from <= i <= to <= b@.len(),
            r@ == b@.subrange(from as int, i as int),
        decreases to - i,
    {
        r.push(b[i]);
        assert(r@ =~= b@.subrange(from as int, i + 1));
        i = i + 1;
    }
    r
}

/// Parses a complete encoded status object into its code, message bytes,
/// and raw data bytes; fails when the buffer does not hold exactly one
/// status object or the code does not fit an `i32`.
pub fn parse_status_bytes(b: &Vec<u8>) -> (r: Result<(i32, Vec<u8>, Vec<u8>), NfError>)
    ensures
        r matches Ok((c, m, d)) ==> spec_parse_status(b@) == Some((c as int, m@, d@)),
        r is Err ==> !spec_parse_status_fits_i32(b@),
{
    let n = b.len();
    let mut prefix: Vec<u8> = Vec::new();
    push_status_prefix(&mut prefix);
    let plen = prefix.len();
    if !match_at(b, 0, &prefix) {
        return Err(NfError::E(String::from_str("json status does not open as expected.")));
    }
    let (code, j) = match parse_int_i32(b, plen) {
        Ok(p) => p,
        Err(e) => {
            return Err(e);
        },
    };
    let mut mk: Vec<u8> = Vec::new();
    push_status_msg_key(&mut mk);
    let mklen = mk.len();
    if !match_at(b, j, &mk) {
        return Err(NfError::E(String::from_str("json status message is missing.")));
    }
    if j + mklen >= n || b[j + mklen] != 0x22 {
        return Err(NfError::E(String::from_str("json status message is not a string.")));
    }
    let (msg, k) = match parse_string_body(b, j + mklen + 1) {
        Ok(p) => p,
        Err(e) => {
            return Err(e);
        },
    };
    let mut dk: Vec<u8> = Vec::new();
    push_status_data_key(&mut dk);
    let dklen = dk.len();
    if !match_at(b, k, &dk) {
        return Err(NfError::E(String::from_str("json status data is missing.")));
    }
    let e = match skip_value_exec(b, k + dklen) {
        Ok(p) => p,
        Err(er) => {
            return Err(er);
        },
    };
    if !(e < n && b[e] == 0x7d && e + 1 == n) {
        return Err(NfError::E(String::from_str("json status does not end as expected.")));
    }
    let data = copy_range(b, k + dklen, e);
    Ok((code, msg, data))
}


// ---------------------------------------------------------------------------
// Round trip of the status envelope
// ---------------------------------------------------------------------------
/// The `k`-th power of ten.
pub open spec fn spec_pow10(k: nat) -> int
    decreases k,
{
    if k == 0 {
        1
    } else {
        10 * spec_pow10((k - 1) as nat)
    }
}

/// The decimal digits of a non-negative number are digits, and there is at
/// least one of them.
proof fn lemma_dec_nat_digits(n: int)
    requires
        n >= 0,
    ensures
        spec_dec_nat(n).len() >= 1,
        forall|k: int| 0 <= k < spec_dec_nat(n).len() ==> spec_is_digit(#[trigger] spec_dec_nat(n)[k]),
    decreases n,
{
    if n >= 10 {
        lemma_dec_nat_digits(n / 10);
        assert forall|k: int| 0 <= k < spec_dec_nat(n).len() implies spec_is_digit(
            #[trigger] spec_dec_nat(n)[k],
        ) by {
            if k < spec_dec_nat(n / 10).len() {
                assert(spec_dec_nat(n)[k] == spec_dec_nat(n / 10)[k]);
            } else {
                assert(spec_dec_nat(n)[k] == (0x30 + n % 10) as u8);
            }
        }
    }
}

/// Folding the digit run that encodes `n` onto an accumulator multiplies
/// the accumulator by the right power of ten and adds `n`, then continues
/// after the run.
proof fn lemma_parse_digits_of_dec(b: Seq<u8>, i: int, n: int, acc: int)
    requires
        0 <= i,
        n >= 0,
        acc >= 0,
        i + spec_dec_nat(n).len() <= b.len(),
        b.subrange(i, i + spec_dec_nat(n).len()) == spec_dec_nat(n),
    ensures
        spec_parse_digits_acc(b, i, acc) == spec_parse_digits_acc(
            b,
            i + spec_dec_nat(n).len(),
            acc * spec_pow10(spec_dec_nat(n).len() as nat) + n,
        ),
    decreases n,
{
    let ds = spec_dec_nat(n);
    let ll = ds.len() as int;
    assert forall|k: int| 0 <= k < ll implies b[i + k] == ds[k] by {
        assert(b.subrange(i, i + ll)[k] == b[i + k]);
    }
    lemma_dec_nat_digits(n);
    if n < 10 {
        assert(b[i + 0] == ds[0]);
        assert(b[i] == (0x30 + n) as u8);
        assert(spec_parse_digits_acc(b, i, acc) == spec_parse_digits_acc(b, i + 1, acc * 10 + n));
        assert(spec_pow10(0) == 1);
        assert(spec_pow10(1) == 10);
        assert(acc * spec_pow10(1) + n == acc * 10 + n);
    } else {
        let front = spec_dec_nat(n / 10);
        let lf = front.len() as int;
        assert(ds == front.push((0x30 + n % 10) as u8));
        assert(lf + 1 == ll);
        assert(b.subrange(i, i + lf) =~= front) by {
            assert forall|k: int| 0 <= k < lf implies b.subrange(i, i + lf)[k] == front[k] by {
                assert(b.subrange(i, i + lf)[k] == b[i + k]);
                assert(ds[k] == front.push((0x30 + n % 10) as u8)[k]);
            }
        }
        lemma_parse_digits_of_dec(b, i, n / 10, acc);
        let mid = acc * spec_pow10(lf as nat) + n / 10;
        assert(spec_parse_digits_acc(b, i, acc) == spec_parse_digits_acc(b, i + lf, mid));
        assert(b[i + lf] == ds[lf]);
        assert(ds[lf] == (0x30 + n % 10) as u8);
        assert(spec_is_digit(b[i + lf]));
        assert(mid >= 0) by {
            assert(spec_pow10(lf as nat) >= 1) by {
                lemma_pow10_pos(lf as nat);
            }
            assert(acc * spec_pow10(lf as nat) >= 0) by (nonlinear_arith)
                requires
                    acc >= 0,
                    spec_pow10(lf as nat) >= 1,
            ;
            vstd::arithmetic::div_mod::lemma_fundamental_div_mod(n, 10);
        }
        assert(spec_parse_digits_acc(b, i + lf, mid) == spec_parse_digits_acc(
            b,
            i + lf + 1,
            mid * 10 + (b[i + lf] - 0x30),
        ));
        assert(b[i + lf] - 0x30 == n % 10);
        assert(mid * 10 + n % 10 == acc * spec_pow10(ll as nat) + n) by {
            assert(spec_pow10(ll as nat) == 10 * spec_pow10(lf as nat));
            assert((acc * spec_pow10(lf as nat) + n / 10) * 10 == acc * (10 * spec_pow10(
                lf as nat,
            )) + (n / 10) * 10) by (nonlinear_arith);
            vstd::arithmetic::div_mod::lemma_fundamental_div_mod(n, 10);
        }
    }
}

proof fn lemma_pow10_pos(k: nat)
    ensures
        spec_pow10(k) >= 1,
    decreases k,
{
    if k > 0 {
        lemma_pow10_pos((k - 1) as nat);
    }
}

/// Parsing the decimal encoding of `v` yields `v` back, stopping at the
/// first byte after it, provided that byte is not a digit.
proof fn lemma_parse_int_of_encoded(b: Seq<u8>, i: int, v: int)
    requires
        0 <= i,
        i + spec_int_json(v).len() <= b.len(),
        b.subrange(i, i + spec_int_json(v).len()) == spec_int_json(v),
        i + spec_int_json(v).len() == b.len() || !spec_is_digit(b[i + spec_int_json(v).len()]),
    ensures
        spec_parse_int(b, i) == Some((v, i + spec_int_json(v).len())),
{
    let ij = spec_int_json(v);
    assert forall|k: int| 0 <= k < ij.len() implies b[i + k] == ij[k] by {
        assert(b.subrange(i, i + ij.len())[k] == b[i + k]);
    }
    if v < 0 {
        let ds = spec_dec_nat(-v);
        lemma_dec_nat_digits(-v);
        assert(ij == seq![0x2du8] + ds);
        assert(b[i + 0] == ij[0] && ij[0] == 0x2d);
        assert(b[i + 1] == ij[1] && ij[1] == ds[0]);
        assert(spec_is_digit(b[i + 1]));
        assert(b.subrange(i + 1, i + 1 + ds.len()) =~= ds) by {
            assert forall|k: int| 0 <= k < ds.len() implies b.subrange(i + 1, i + 1 + ds.len())[k]
                == ds[k] by {
                assert(b.subrange(i + 1, i + 1 + ds.len())[k] == b[i + 1 + k]);
                assert(ij[1 + k] == (seq![0x2du8] + ds)[1 + k]);
            }
        }
        lemma_parse_digits_of_dec(b, i + 1, -v, 0);
        assert(spec_parse_digits_acc(b, i + 1, 0) == spec_parse_digits_acc(
            b,
            i + 1 + ds.len(),
            -v,
        ));
        assert(spec_parse_digits_acc(b, i + 1 + ds.len(), -v) == (-v, i + 1 + ds.len()));
    } else {
        let ds = spec_dec_nat(v);
        lemma_dec_nat_digits(v);
        assert(ij == ds);
        assert(b[i + 0] == ds[0]);
        assert(spec_is_digit(b[i]));
        assert(b[i] != 0x2d);
        lemma_parse_digits_of_dec(b, i, v, 0);
        assert(spec_parse_digits_acc(b, i, 0) == spec_parse_digits_acc(b, i + ds.len(), v));
        assert(spec_parse_digits_acc(b, i + ds.len(), v) == (v, i + ds.len()));
    }
}

/// Law: parsing an encoded status envelope whose data value is the `null`
/// literal — the only data value this library emits — yields the code, the
/// message and the data bytes back, consuming the whole encoding.
pub proof fn lemma_parse_status_of_encoded(code: int, msg: Seq<u8>)
    ensures
        spec_parse_status(
            spec_status_json(code, msg, seq![0x6eu8, 0x75u8, 0x6cu8, 0x6cu8]),
        ) == Some((code, msg, seq![0x6eu8, 0x75u8, 0x6cu8, 0x6cu8])),
{
    let nul = seq![0x6eu8, 0x75u8, 0x6cu8, 0x6cu8];
    let b = spec_status_json(code, msg, nul);
    let p = spec_status_prefix();
    let ij = spec_int_json(code);
    let mk = spec_status_msg_key();
    let js = spec_jstring(msg);
    let es = spec_escape_bytes(msg);
    let dk = spec_status_data_key();
    let tail = nul + seq![0x7du8];
    assert(b == p + ij + mk + js + dk + nul + seq![0x7du8]);
    let i1 = p.len() as int;
    let i2 = i1 + ij.len();
    let i3 = i2 + mk.len();
    let i4 = i3 + js.len();
    let i5 = i4 + dk.len();
    let i6 = i5 + nul.len();
    assert forall|k: int| 0 <= k < b.len() implies b[k] == (if k < i1 {
        p[k]
    } else if k < i2 {
        ij[k - i1]
    } else if k < i3 {
        mk[k - i2]
    } else if k < i4 {
        js[k - i3]
    } else if k < i5 {
        dk[k - i4]
    } else {
        tail[k - i5]
    }) by {
        assert(b[k] == (p + ij + mk + js + dk + nul + seq![0x7du8])[k]);
    }
    assert(b.subrange(0, i1) =~= p);
    assert(spec_match_at(b, 0, p));
    // the code: its digits are followed by the comma of the message key
    lemma_dec_nat_digits(if code < 0 {
        -code
    } else {
        code
    });
    assert(b.subrange(i1, i2) =~= ij);
    assert(b[i2 + 0] == mk[0] && mk[0] == 0x2c);
    assert(!spec_is_digit(b[i2]));
    lemma_parse_int_of_encoded(b, i1, code);
    assert(spec_parse_int(b, i1) == Some((code, i2)));
    // the message key and its string token
    assert(b.subrange(i2, i3) =~= mk);
    assert(spec_match_at(b, i2, mk));
    assert(b[i3 + 0] == js[0] && js[0] == 0x22);
    assert(b.subrange(i3 + 1, i3 + 1 + es.len() + 1) =~= es + seq![0x22u8]) by {
        assert forall|k: int| 0 <= k < es.len() + 1 implies b.subrange(
            i3 + 1,
            i3 + 1 + es.len() + 1,
        )[k] == (es + seq![0x22u8])[k] by {
            assert(b.subrange(i3 + 1, i3 + 1 + es.len() + 1)[k] == b[i3 + 1 + k]);
            assert(js[1 + k] == (seq![0x22u8] + es + seq![0x22u8])[1 + k]);
        }
    }
    lemma_parse_string_body_of_escaped(b, i3 + 1, msg);
    assert(spec_parse_string_body(b, i3 + 1) == Some((msg, i4)));
    // the data key, the null literal, and the closing brace
    assert(b.subrange(i4, i5) =~= dk);
    assert(spec_match_at(b, i4, dk));
    assert(b.subrange(i5, i5 + 4) =~= nul) by {
        assert forall|k: int| 0 <= k < 4 implies b.subrange(i5, i5 + 4)[k] == nul[k] by {
            assert(b.subrange(i5, i5 + 4)[k] == b[i5 + k]);
            assert(tail[k] == (nul + seq![0x7du8])[k]);
        }
    }
    assert(b[i5 + 0] == nul[0] && nul[0] == 0x6e);
    assert(spec_match_at(b, i5, seq![0x6eu8, 0x75u8, 0x6cu8, 0x6cu8]));
    assert(spec_skip_value(b, i5) == Some(i6));
    assert(b[i6 + 0] == tail[4] && tail[4] == 0x7d);
    assert(i6 + 1 == b.len());
    assert(b.subrange(i5, i6) =~= nul);
}

} // verus!
