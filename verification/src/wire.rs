//! Big-endian integer encodings and small byte-vector helpers used by the
//! frame codec. All multi-byte integers on the wire are big-endian.
use vstd::prelude::*;

verus! {

/// The four bytes of `x` in big-endian order.
pub open spec fn spec_u32_to_be_bytes(x: u32) -> Seq<u8> {
    seq![
        ((x >> 24) & 0xff) as u8,
        ((x >> 16) & 0xff) as u8,
        ((x >> 8) & 0xff) as u8,
        (x & 0xff) as u8,
    ]
}

/// The `u32` denoted by four big-endian bytes.
pub open spec fn spec_u32_from_be_bytes(s: Seq<u8>) -> u32
    recommends
        s.len() == 4,
{
    (((s[0] as u32) << 24) | ((s[1] as u32) << 16) | ((s[2] as u32) << 8) | (s[3] as u32)) as u32
}

/// The eight bytes of `x` in big-endian order.
pub open spec fn spec_u64_to_be_bytes(x: u64) -> Seq<u8> {
    seq![
        ((x >> 56) & 0xff) as u8,
        ((x >> 48) & 0xff) as u8,
        ((x >> 40) & 0xff) as u8,
        ((x >> 32) & 0xff) as u8,
        ((x >> 24) & 0xff) as u8,
        ((x >> 16) & 0xff) as u8,
        ((x >> 8) & 0xff) as u8,
        (x & 0xff) as u8,
    ]
}

/// The `u64` denoted by eight big-endian bytes.
pub open spec fn spec_u64_from_be_bytes(s: Seq<u8>) -> u64
    recommends
        s.len() == 8,
{
    (((s[0] as u64) << 56) | ((s[1] as u64) << 48) | ((s[2] as u64) << 40) | ((s[3] as u64) << 32)
        | ((s[4] as u64) << 24) | ((s[5] as u64) << 16) | ((s[6] as u64) << 8) | (s[7] as u64)) as u64
}

/// Decoding inverts encoding for 32-bit values, and vice versa.
pub proof fn lemma_u32_be_bytes_round_trip()
    ensures
        forall|x: u32| (#[trigger] spec_u32_to_be_bytes(x)).len() == 4
            && spec_u32_from_be_bytes(spec_u32_to_be_bytes(x)) == x,
        forall|s: Seq<u8>| s.len() == 4 ==> #[trigger] spec_u32_to_be_bytes(spec_u32_from_be_bytes(s)) == s,
{
    assert forall|x: u32| (#[trigger] spec_u32_to_be_bytes(x)).len() == 4
        && spec_u32_from_be_bytes(spec_u32_to_be_bytes(x)) == x by {
        assert((((((x >> 24) & 0xff) as u8) as u32) << 24
            | ((((x >> 16) & 0xff) as u8) as u32) << 16
            | ((((x >> 8) & 0xff) as u8) as u32) << 8
            | (((x & 0xff) as u8) as u32)) as u32 == x) by (bit_vector);
    }
    assert forall|s: Seq<u8>| s.len() == 4 implies #[trigger] spec_u32_to_be_bytes(
        spec_u32_from_be_bytes(s),
    ) == s by {
        let b0 = s[0];
        let b1 = s[1];
        let b2 = s[2];
        let b3 = s[3];
        let x = spec_u32_from_be_bytes(s);
        assert(x == (((b0 as u32) << 24) | ((b1 as u32) << 16) | ((b2 as u32) << 8) | (b3 as u32)) as u32);
        let y = (((b0 as u32) << 24) | ((b1 as u32) << 16) | ((b2 as u32) << 8) | (b3 as u32)) as u32;
        assert(((y >> 24) & 0xff) as u8 == b0 && ((y >> 16) & 0xff) as u8 == b1
            && ((y >> 8) & 0xff) as u8 == b2 && (y & 0xff) as u8 == b3) by (bit_vector)
            requires
                y == (((b0 as u32) << 24) | ((b1 as u32) << 16) | ((b2 as u32) << 8) | (b3 as u32)) as u32,
        ;
        assert(spec_u32_to_be_bytes(x) =~= s);
    }
}

/// Decoding inverts encoding for 64-bit values, and vice versa.
pub proof fn lemma_u64_be_bytes_round_trip()
    ensures
        forall|x: u64| (#[trigger] spec_u64_to_be_bytes(x)).len() == 8
            && spec_u64_from_be_bytes(spec_u64_to_be_bytes(x)) == x,
        forall|s: Seq<u8>| s.len() == 8 ==> #[trigger] spec_u64_to_be_bytes(spec_u64_from_be_bytes(s)) == s,
{
    assert forall|x: u64| (#[trigger] spec_u64_to_be_bytes(x)).len() == 8
        && spec_u64_from_be_bytes(spec_u64_to_be_bytes(x)) == x by {
        assert((((((x >> 56) & 0xff) as u8) as u64) << 56
            | ((((x >> 48) & 0xff) as u8) as u64) << 48
            | ((((x >> 40) & 0xff) as u8) as u64) << 40
            | ((((x >> 32) & 0xff) as u8) as u64) << 32
            | ((((x >> 24) & 0xff) as u8) as u64) << 24
            | ((((x >> 16) & 0xff) as u8) as u64) << 16
            | ((((x >> 8) & 0xff) as u8) as u64) << 8
            | (((x & 0xff) as u8) as u64)) as u64 == x) by (bit_vector);
    }
    assert forall|s: Seq<u8>| s.len() == 8 implies #[trigger] spec_u64_to_be_bytes(
        spec_u64_from_be_bytes(s),
    ) == s by {
        let b0 = s[0];
        let b1 = s[1];
        let b2 = s[2];
        let b3 = s[3];
        let b4 = s[4];
        let b5 = s[5];
        let b6 = s[6];
        let b7 = s[7];
        let y = (((b0 as u64) << 56) | ((b1 as u64) << 48) | ((b2 as u64) << 40) | ((b3 as u64) << 32)
            | ((b4 as u64) << 24) | ((b5 as u64) << 16) | ((b6 as u64) << 8) | (b7 as u64)) as u64;
        assert(spec_u64_from_be_bytes(s) == y);
        assert(((y >> 56) & 0xff) as u8 == b0 && ((y >> 48) & 0xff) as u8 == b1
            && ((y >> 40) & 0xff) as u8 == b2 && ((y >> 32) & 0xff) as u8 == b3
            && ((y >> 24) & 0xff) as u8 == b4 && ((y >> 16) & 0xff) as u8 == b5
            && ((y >> 8) & 0xff) as u8 == b6 && (y & 0xff) as u8 == b7) by (bit_vector)
            requires
                y == (((b0 as u64) << 56) | ((b1 as u64) << 48) | ((b2 as u64) << 40)
                    | ((b3 as u64) << 32) | ((b4 as u64) << 24) | ((b5 as u64) << 16)
                    | ((b6 as u64) << 8) | (b7 as u64)) as u64,
        ;
        assert(spec_u64_to_be_bytes(y) =~= s);
    }
}

/// Appends the big-endian bytes of `x` to `out`.
pub fn push_u32_be(out: &mut Vec<u8>, x: u32)
    ensures
        final(out)@ == old(out)@ + spec_u32_to_be_bytes(x),
{
    out.push(((x >> 24) & 0xff) as u8);
    out.push(((x >> 16) & 0xff) as u8);
    out.push(((x >> 8) & 0xff) as u8);
    out.push((x & 0xff) as u8);
    assert(out@ =~= old(out)@ + spec_u32_to_be_bytes(x));
}

/// Appends the big-endian bytes of `x` to `out`.
pub fn push_u64_be(out: &mut Vec<u8>, x: u64)
    ensures
        final(out)@ == old(out)@ + spec_u64_to_be_bytes(x),
{
    out.push(((x >> 56) & 0xff) as u8);
    out.push(((x >> 48) & 0xff) as u8);
    out.push(((x >> 40) & 0xff) as u8);
    out.push(((x >> 32) & 0xff) as u8);
    out.push(((x >> 24) & 0xff) as u8);
    out.push(((x >> 16) & 0xff) as u8);
    out.push(((x >> 8) & 0xff) as u8);
    out.push((x & 0xff) as u8);
    assert(out@ =~= old(out)@ + spec_u64_to_be_bytes(x));
}

/// Reads the big-endian `u32` stored in `b` at offset `i`.
pub fn read_u32_be(b: &Vec<u8>, i: usize) -> (r: u32)
    requires
        i + 4 <= b@.len(),
    ensures
        r == spec_u32_from_be_bytes(b@.subrange(i as int, i + 4)),
{
    let n = b.len();
    assert(i + 4 <= n);
    let r = ((b[i] as u32) << 24) | ((b[i + 1] as u32) << 16) | ((b[i + 2] as u32) << 8) | (b[i + 3] as u32);
    proof {
        let s = b@.subrange(i as int, i + 4);
        assert(s[0] == b@[i as int] && s[1] == b@[i + 1] && s[2] == b@[i + 2] && s[3] == b@[i + 3]);
    }
    r
}

/// Reads the big-endian `u64` stored in `b` at offset `i`.
pub fn read_u64_be(b: &Vec<u8>, i: usize) -> (r: u64)
    requires
        i + 8 <= b@.len(),
    ensures
        r == spec_u64_from_be_bytes(b@.subrange(i as int, i + 8)),
{
    let n = b.len();
    assert(i + 8 <= n);
    let r = ((b[i] as u64) << 56) | ((b[i + 1] as u64) << 48) | ((b[i + 2] as u64) << 40)
        | ((b[i + 3] as u64) << 32) | ((b[i + 4] as u64) << 24) | ((b[i + 5] as u64) << 16)
        | ((b[i + 6] as u64) << 8) | (b[i + 7] as u64);
    proof {
        let s = b@.subrange(i as int, i + 8);
        assert(s[0] == b@[i as int] && s[1] == b@[i + 1] && s[2] == b@[i + 2] && s[3] == b@[i + 3]
            && s[4] == b@[i + 4] && s[5] == b@[i + 5] && s[6] == b@[i + 6] && s[7] == b@[i + 7]);
    }
    r
}

/// Appends all bytes of the slice `s` to `out`.
pub fn append_bytes(out: &mut Vec<u8>, s: &[u8])
    ensures
        final(out)@ == old(out)@ + s@,
{
    let mut i: usize = 0;
    while i < s.len()
        invariant
            i <= s@.len(),
            out@ == old(out)@ + s@.subrange(0, i as int),
        decreases s@.len() - i,
    {
        out.push(s[i]);
        assert(out@ =~= old(out)@ + s@.subrange(0, i + 1));
        i = i + 1;
    }
    assert(out@ =~= old(out)@ + s@);
}

} // verus!
