//! Byte-level primitives of the wire format: little-endian integers with a
//! length-prefixed bytes record, and the big-endian counter bytes used for
//! AEAD nonces.

use vstd::prelude::*;

verus! {

/// The little-endian byte sequence of a 32-bit value.
pub open spec fn spec_u32_le(x: u32) -> Seq<u8> {
    seq![
        (x & 0xff) as u8,
        ((x >> 8) & 0xff) as u8,
        ((x >> 16) & 0xff) as u8,
        ((x >> 24) & 0xff) as u8,
    ]
}

/// The 32-bit value read from four little-endian bytes.
pub open spec fn spec_u32_from_le(b: Seq<u8>) -> u32
    recommends
        b.len() == 4,
{
    (b[0] as u32) | ((b[1] as u32) << 8) | ((b[2] as u32) << 16) | ((b[3] as u32) << 24)
}

/// Appends the four little-endian bytes of `x` to `out`.
pub fn write_u32_le(out: &mut Vec<u8>, x: u32)
    ensures
        final(out)@ == old(out)@ + spec_u32_le(x),
{
    out.push((x & 0xff) as u8);
    out.push(((x >> 8) & 0xff) as u8);
    out.push(((x >> 16) & 0xff) as u8);
    out.push(((x >> 24) & 0xff) as u8);
    assert(out@ =~= old(out)@ + spec_u32_le(x));
}

/// Reads a 32-bit little-endian value at offset `at`.
pub fn read_u32_le(buf: &Vec<u8>, at: usize) -> (x: u32)
    requires
        at + 4 <= buf@.len(),
    ensures
        x == spec_u32_from_le(buf@.subrange(at as int, at + 4)),
{
    let len = buf.len();
    proof {
        assert(at + 4 <= len);
    }
    let b0 = buf[at] as u32;
    let b1 = buf[at + 1] as u32;
    let b2 = buf[at + 2] as u32;
    let b3 = buf[at + 3] as u32;
    let x = b0 | (b1 << 8) | (b2 << 16) | (b3 << 24);
    proof {
        let s = buf@.subrange(at as int, at + 4);
        assert(s[0] == buf@[at as int] && s[1] == buf@[at + 1] && s[2] == buf@[at + 2] && s[3]
            == buf@[at + 3]);
    }
    x
}

/// Reading back the four bytes written for `x` recovers `x`.
pub proof fn lemma_u32_le_round_trip(x: u32)
    ensures
        spec_u32_from_le(spec_u32_le(x)) == x,
{
    assert(spec_u32_from_le(spec_u32_le(x)) == x) by (bit_vector);
}

/// Four bytes re-encode to themselves after being read as a 32-bit value.
pub proof fn lemma_u32_from_le_round_trip(s: Seq<u8>)
    requires
        s.len() == 4,
    ensures
        spec_u32_le(spec_u32_from_le(s)) == s,
{
    let b0 = s[0];
    let b1 = s[1];
    let b2 = s[2];
    let b3 = s[3];
    let x = spec_u32_from_le(s);
    assert(x == (b0 as u32) | ((b1 as u32) << 8) | ((b2 as u32) << 16) | ((b3 as u32) << 24));
    assert({
        let y = (b0 as u32) | ((b1 as u32) << 8) | ((b2 as u32) << 16) | ((b3 as u32) << 24);
        (y & 0xff) as u8 == b0 && ((y >> 8) & 0xff) as u8 == b1 && ((y >> 16) & 0xff) as u8 == b2
            && ((y >> 24) & 0xff) as u8 == b3
    }) by (bit_vector);
    assert(spec_u32_le(x) =~= s);
}

/// The big-endian byte sequence of a 64-bit value, most significant first.
pub open spec fn spec_u64_be(x: u64) -> Seq<u8> {
    seq![
        ((x >> 56) & 0xff) as u8,
        ((x >> 48) & 0xff) as u8,
        ((x >> 40) & 0xff) as u8,
        ((x >> 32) & 0xff) as u8,
        ((x >> 24) & 0xff) as u8,
        ((x >> 16) & 0xff) as u8,
        ((x >> 8) & 0xff) as u8,
        (x & 0xff) as u8,
    ]
}

/// Appends the eight big-endian bytes of `x` to `out`.
pub fn write_u64_be(out: &mut Vec<u8>, x: u64)
    ensures
        final(out)@ == old(out)@ + spec_u64_be(x),
{
    out.push(((x >> 56) & 0xff) as u8);
    out.push(((x >> 48) & 0xff) as u8);
    out.push(((x >> 40) & 0xff) as u8);
    out.push(((x >> 32) & 0xff) as u8);
    out.push(((x >> 24) & 0xff) as u8);
    out.push(((x >> 16) & 0xff) as u8);
    out.push(((x >> 8) & 0xff) as u8);
    out.push((x & 0xff) as u8);
    assert(out@ =~= old(out)@ + spec_u64_be(x));
}

/// Distinct counters give distinct big-endian bytes.
pub proof fn lemma_u64_be_injective(x: u64, y: u64)
    requires
        spec_u64_be(x) == spec_u64_be(y),
    ensures
        x == y,
{
    assert(spec_u64_be(x)[0] == spec_u64_be(y)[0]);
    assert(spec_u64_be(x)[1] == spec_u64_be(y)[1]);
    assert(spec_u64_be(x)[2] == spec_u64_be(y)[2]);
    assert(spec_u64_be(x)[3] == spec_u64_be(y)[3]);
    assert(spec_u64_be(x)[4] == spec_u64_be(y)[4]);
    assert(spec_u64_be(x)[5] == spec_u64_be(y)[5]);
    assert(spec_u64_be(x)[6] == spec_u64_be(y)[6]);
    assert(spec_u64_be(x)[7] == spec_u64_be(y)[7]);
    assert((((x >> 56) & 0xff) as u8 == ((y >> 56) & 0xff) as u8 && ((x >> 48) & 0xff) as u8 == ((
    y >> 48) & 0xff) as u8 && ((x >> 40) & 0xff) as u8 == ((y >> 40) & 0xff) as u8 && ((x >> 32)
        & 0xff) as u8 == ((y >> 32) & 0xff) as u8 && ((x >> 24) & 0xff) as u8 == ((y >> 24)
        & 0xff) as u8 && ((x >> 16) & 0xff) as u8 == ((y >> 16) & 0xff) as u8 && ((x >> 8)
        & 0xff) as u8 == ((y >> 8) & 0xff) as u8 && (x & 0xff) as u8 == (y & 0xff) as u8) ==> x
        == y) by (bit_vector);
}

/// The wire form of a variable-length byte record: a 32-bit little-endian
/// length followed by the bytes themselves.
pub open spec fn spec_len_prefixed(b: Seq<u8>) -> Seq<u8> {
    spec_u32_le(b.len() as u32) + b
}

/// Appends `len(b)` as 32-bit little-endian, then the bytes of `b`.
pub fn write_len_prefixed(out: &mut Vec<u8>, b: &Vec<u8>)
    requires
        b@.len() <= u32::MAX,
    ensures
        final(out)@ == old(out)@ + spec_len_prefixed(b@),
{
    let n = b.len();
    write_u32_le(out, n as u32);
    let mut i: usize = 0;
    while i < n
        invariant
            i <= n,
            n == b@.len(),
            out@ == old(out)@ + spec_u32_le(n as u32) + b@.subrange(0, i as int),
        decreases n - i,
    {
        out.push(b[i]);
        i = i + 1;
        assert(out@ =~= old(out)@ + spec_u32_le(n as u32) + b@.subrange(0, i as int));
    }
    assert(b@.subrange(0, n as int) =~= b@);
    assert(out@ =~= old(out)@ + spec_len_prefixed(b@));
}

/// Copies `count` bytes of `buf` starting at `at` into a fresh vector.
pub fn read_exact(buf: &Vec<u8>, at: usize, count: usize) -> (r: Vec<u8>)
    requires
        at + count <= buf@.len(),
    ensures
        r@ == buf@.subrange(at as int, at + count),
{
    let mut r: Vec<u8> = Vec::new();
    let mut i: usize = 0;
    while i < count
        invariant
            i <= count,
            at + count <= buf@.len(),
            r@ == buf@.subrange(at as int, at + i),
        decreases count - i,
    {
        let len = buf.len();
        proof {
            assert(at + count <= len);
        }
        r.push(buf[at + i]);
        i = i + 1;
        assert(r@ =~= buf@.subrange(at as int, at + i));
    }
    r
}

/// Appends every byte of `b` to `out`.
pub fn write_bytes(out: &mut Vec<u8>, b: &Vec<u8>)
    ensures
        final(out)@ == old(out)@ + b@,
{
    let n = b.len();
    let mut i: usize = 0;
    while i < n
        invariant
            i <= n,
            n == b@.len(),
            out@ == old(out)@ + b@.subrange(0, i as int),
        decreases n - i,
    {
        out.push(b[i]);
        i = i + 1;
        assert(out@ =~= old(out)@ + b@.subrange(0, i as int));
    }
    assert(b@.subrange(0, n as int) =~= b@);
}

} // verus!
