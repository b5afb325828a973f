//! Byte-level helpers: fixed-size array equality, appending arrays to
//! byte vectors, and little-endian integer encodings used by the
//! canonical codec.

use vstd::prelude::*;

verus! {

/// Bytewise equality of two fixed-size byte arrays.
pub fn bytes_eq<const N: usize>(a: &[u8; N], b: &[u8; N]) -> (r: bool)
    ensures
        r == (a@ == b@),
{
    let mut i: usize = 0;
    while i < N
        invariant
            0 <= i <= N,
            forall|j: int| 0 <= j < i ==> a@[j] == b@[j],
        decreases N - i,
    {
        if a[i] != b[i] {
            assert(a@[i as int] != b@[i as int]);
            return false;
        }
        i += 1;
    }
    assert(a@ =~= b@);
    true
}

/// Bytewise equality of two byte vectors.
pub fn vec_bytes_eq(a: &Vec<u8>, b: &Vec<u8>) -> (r: bool)
    ensures
        r == (a@ == b@),
{
    if a.len() != b.len() {
        return false;
    }
    let mut i: usize = 0;
    while i < a.len()
        invariant
            0 <= i <= a@.len(),
            a@.len() == b@.len(),
            forall|j: int| 0 <= j < i ==> a@[j] == b@[j],
        decreases a@.len() - i,
    {
        if a[i] != b[i] {
            assert(a@[i as int] != b@[i as int]);
            return false;
        }
        i += 1;
    }
    assert(a@ =~= b@);
    true
}

/// Append all bytes of a fixed-size array to a vector.
pub fn push_bytes<const N: usize>(out: &mut Vec<u8>, a: &[u8; N])
    ensures
        final(out)@ == old(out)@ + a@,
{
    let mut i: usize = 0;
    while i < N
        invariant
            0 <= i <= N,
            out@ == old(out)@ + a@.take(i as int),
        decreases N - i,
    {
        out.push(a[i]);
        assert(out@ =~= old(out)@ + a@.take(i as int + 1));
        i += 1;
    }
    assert(a@.take(N as int) =~= a@);
}

/// Read a fixed-size array out of a slice at the given position.
pub fn read_bytes<const N: usize>(buf: &[u8], pos: usize) -> (r: [u8; N])
    requires
        pos + N <= buf@.len(),
    ensures
        r@ == buf@.subrange(pos as int, pos as int + N as int),
{
    let buf_len: usize = buf.len();
    let mut out: [u8; N] = [0; N];
    let mut i: usize = 0;
    while i < N
        invariant
            0 <= i <= N,
            pos + N <= buf_len,
            buf_len == buf@.len(),
            out@.len() == N,
            forall|j: int| 0 <= j < i ==> out@[j] == buf@[pos + j],
        decreases N - i,
    {
        out[i] = buf[pos + i];
        i += 1;
    }
    assert(out@ =~= buf@.subrange(pos as int, pos as int + N as int));
    out
}

/// Append all bytes of one vector to another.
pub fn push_vec(out: &mut Vec<u8>, src: &Vec<u8>)
    ensures
        final(out)@ == old(out)@ + src@,
{
    let mut i: usize = 0;
    while i < src.len()
        invariant
            0 <= i <= src@.len(),
            out@ == old(out)@ + src@.take(i as int),
        decreases src@.len() - i,
    {
        out.push(src[i]);
        assert(out@ =~= old(out)@ + src@.take(i as int + 1));
        i += 1;
    }
    assert(src@.take(src@.len() as int) =~= src@);
}

/// Read a byte vector of the given length out of a slice.
pub fn read_vec(buf: &[u8], pos: usize, len: usize) -> (r: Vec<u8>)
    requires
        pos + len <= buf@.len(),
    ensures
        r@ == buf@.subrange(pos as int, pos as int + len as int),
{
    let buf_len: usize = buf.len();
    let mut out: Vec<u8> = Vec::new();
    let mut i: usize = 0;
    while i < len
        invariant
            0 <= i <= len,
            pos + len <= buf_len,
            buf_len == buf@.len(),
            out@ == buf@.subrange(pos as int, pos as int + i as int),
        decreases len - i,
    {
        out.push(buf[pos + i]);
        assert(out@ =~= buf@.subrange(pos as int, pos as int + i as int + 1));
        i += 1;
    }
    out
}

/// Little-endian bytes of a 64-bit integer.
#[verifier::opaque]
pub open spec fn u64_le(n: u64) -> Seq<u8> {
    seq![
        (n % 256) as u8,
        ((n / 256) % 256) as u8,
        ((n / 65536) % 256) as u8,
        ((n / 16777216) % 256) as u8,
        ((n / 4294967296) % 256) as u8,
        ((n / 1099511627776) % 256) as u8,
        ((n / 281474976710656) % 256) as u8,
        ((n / 72057594037927936) % 256) as u8,
    ]
}

/// The 64-bit integer read from eight little-endian bytes.
#[verifier::opaque]
pub open spec fn u64_of_le(s: Seq<u8>) -> int
    recommends
        s.len() == 8,
{
    s[0] + 256 * s[1] + 65536 * s[2] + 16777216 * s[3]
        + 4294967296 * s[4] + 1099511627776 * s[5]
        + 281474976710656 * s[6] + 72057594037927936 * s[7]
}

/// The little-endian encoding of an integer is eight bytes long.
pub broadcast proof fn lemma_u64_le_len(n: u64)
    ensures
        (#[trigger] u64_le(n)).len() == 8,
{
    reveal(u64_le);
}

/// Reading back the little-endian bytes of an integer yields the integer.
pub proof fn lemma_u64_le_roundtrip(n: u64)
    ensures
        u64_of_le(u64_le(n)) == n,
{
    reveal(u64_le);
    reveal(u64_of_le);
    let d1 = n / 256;
    let d2 = d1 / 256;
    let d3 = d2 / 256;
    let d4 = d3 / 256;
    let d5 = d4 / 256;
    let d6 = d5 / 256;
    let d7 = d6 / 256;
    assert(n == n % 256 + 256 * d1);
    assert(d1 == d1 % 256 + 256 * d2);
    assert(d2 == d2 % 256 + 256 * d3);
    assert(d3 == d3 % 256 + 256 * d4);
    assert(d4 == d4 % 256 + 256 * d5);
    assert(d5 == d5 % 256 + 256 * d6);
    assert(d6 == d6 % 256 + 256 * d7);
    assert(d7 < 256) by {
        assert(n < 72057594037927936 * 256);
    }
    assert(d7 % 256 == d7);
    assert(u64_le(n)[4] == (n / 4294967296) % 256);
    assert(n / 4294967296 == d4 && n / 1099511627776 == d5
        && n / 281474976710656 == d6 && n / 72057594037927936 == d7
        && n / 256 == d1 && n / 65536 == d2 && n / 16777216 == d3) by {
        vstd::arithmetic::div_mod::lemma_div_denominator(n as int, 256, 256);
        vstd::arithmetic::div_mod::lemma_div_denominator(n as int, 65536, 256);
        vstd::arithmetic::div_mod::lemma_div_denominator(n as int, 16777216, 256);
        vstd::arithmetic::div_mod::lemma_div_denominator(n as int, 4294967296, 256);
        vstd::arithmetic::div_mod::lemma_div_denominator(n as int, 1099511627776, 256);
        vstd::arithmetic::div_mod::lemma_div_denominator(n as int, 281474976710656, 256);
    }
}

/// Append the eight little-endian bytes of an integer.
pub fn push_u64(out: &mut Vec<u8>, n: u64)
    ensures
        final(out)@ == old(out)@ + u64_le(n),
{
    proof { reveal(u64_le); }
    out.push((n % 256) as u8);
    out.push(((n / 256) % 256) as u8);
    out.push(((n / 65536) % 256) as u8);
    out.push(((n / 16777216) % 256) as u8);
    out.push(((n / 4294967296) % 256) as u8);
    out.push(((n / 1099511627776) % 256) as u8);
    out.push(((n / 281474976710656) % 256) as u8);
    out.push(((n / 72057594037927936) % 256) as u8);
    assert(out@ =~= old(out)@ + u64_le(n));
}

/// Read the 64-bit integer at the given position of a buffer.
pub fn read_u64(buf: &[u8], pos: usize) -> (r: u64)
    requires
        pos + 8 <= buf@.len(),
    ensures
        r == u64_of_le(buf@.subrange(pos as int, pos as int + 8)),
{
    proof { reveal(u64_of_le); }
    let b0 = buf[pos] as u64;
    let b1 = buf[pos + 1] as u64;
    let b2 = buf[pos + 2] as u64;
    let b3 = buf[pos + 3] as u64;
    let b4 = buf[pos + 4] as u64;
    let b5 = buf[pos + 5] as u64;
    let b6 = buf[pos + 6] as u64;
    let b7 = buf[pos + 7] as u64;
    assert(b0 + 256 * b1 + 65536 * b2 + 16777216 * b3
        + 4294967296 * b4 + 1099511627776 * b5
        + 281474976710656 * b6 + 72057594037927936 * b7 <= 0xffff_ffff_ffff_ffff);
    b0 + 256 * b1 + 65536 * b2 + 16777216 * b3
        + 4294967296 * b4 + 1099511627776 * b5
        + 281474976710656 * b6 + 72057594037927936 * b7
}

} // verus!
