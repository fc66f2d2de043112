//! Little-endian integers in byte buffers.

use vstd::prelude::*;

verus! {

/// The little-endian `u16` at `i` in `s`.
pub open spec fn u16_le(s: Seq<u8>, i: int) -> u16 {
    (s[i] as u16) | ((s[i + 1] as u16) << 8u16)
}

/// The little-endian `u32` at `i` in `s`.
pub open spec fn u32_le(s: Seq<u8>, i: int) -> u32 {
    (s[i] as u32) | ((s[i + 1] as u32) << 8u32) | ((s[i + 2] as u32) << 16u32) | ((
    s[i + 3] as u32) << 24u32)
}

/// The little-endian `i32` at `i` in `s`.
pub open spec fn i32_le(s: Seq<u8>, i: int) -> i32 {
    u32_le(s, i) as i32
}

/// The little-endian `u64` at `i` in `s`.
pub open spec fn u64_le(s: Seq<u8>, i: int) -> u64 {
    (u32_le(s, i) as u64) | ((u32_le(s, i + 4) as u64) << 32u64)
}

/// The little-endian `i64` at `i` in `s`.
pub open spec fn i64_le(s: Seq<u8>, i: int) -> i64 {
    u64_le(s, i) as i64
}

/// The two little-endian bytes of `x`.
pub open spec fn u16_bytes(x: u16) -> Seq<u8> {
    seq![(x & 0xff) as u8, ((x >> 8u16) & 0xff) as u8]
}

/// The four little-endian bytes of `x`.
pub open spec fn u32_bytes(x: u32) -> Seq<u8> {
    seq![(x & 0xff) as u8, ((x >> 8u32) & 0xff) as u8, ((x >> 16u32) & 0xff) as u8, ((x >> 24u32)
        & 0xff) as u8]
}

/// The four little-endian bytes of `x`.
pub open spec fn i32_bytes(x: i32) -> Seq<u8> {
    u32_bytes(x as u32)
}

/// The eight little-endian bytes of `x`.
pub open spec fn u64_bytes(x: u64) -> Seq<u8> {
    u32_bytes(x as u32) + u32_bytes((x >> 32u64) as u32)
}

/// The eight little-endian bytes of `x`.
pub open spec fn i64_bytes(x: i64) -> Seq<u8> {
    u64_bytes(x as u64)
}

/// `seg` stands in `data` at `p`.
pub open spec fn contains_at(data: Seq<u8>, p: int, seg: Seq<u8>) -> bool {
    &&& 0 <= p
    &&& p + seg.len() <= data.len()
    &&& data.subrange(p, p + seg.len()) == seg
}

/// A segment made of two parts stands in the data part after part.
pub proof fn lemma_contains_concat(data: Seq<u8>, p: int, a: Seq<u8>, b: Seq<u8>)
    requires
        contains_at(data, p, a + b),
    ensures
        contains_at(data, p, a),
        contains_at(data, p + a.len(), b),
{
    let ab = a + b;
    assert forall|k: int| 0 <= k < ab.len() implies data[p + k] == ab[k] by {
        assert(data.subrange(p, p + ab.len())[k] == ab[k]);
    }
    assert(data.subrange(p, p + a.len()) =~= a);
    assert forall|k: int| 0 <= k < b.len() implies data[p + a.len() + k] == b[k] by {
        assert(ab[a.len() + k] == b[k]);
    }
    assert(data.subrange(p + a.len(), p + a.len() + b.len()) =~= b);
}

/// A piece of a segment stands in the data at its own place.
pub proof fn lemma_contains_sub(data: Seq<u8>, p: int, seg: Seq<u8>, i: int, j: int)
    requires
        contains_at(data, p, seg),
        0 <= i <= j <= seg.len(),
    ensures
        contains_at(data, p + i, seg.subrange(i, j)),
{
    assert forall|k: int| 0 <= k < j - i implies #[trigger] data.subrange(p + i, p + j)[k] == seg.subrange(i, j)[k] by {
        assert(data.subrange(p, p + seg.len())[i + k] == seg[i + k]);
    }
    assert(data.subrange(p + i, p + j) =~= seg.subrange(i, j));
}

/// Reading back the bytes of a `u16` gives the `u16`.
pub proof fn lemma_u16_roundtrip(x: u16, s: Seq<u8>, i: int)
    requires
        0 <= i,
        i + 2 <= s.len(),
        s.subrange(i, i + 2) == u16_bytes(x),
    ensures
        u16_le(s, i) == x,
{
    assert(s[i] == s.subrange(i, i + 2)[0]);
    assert(s[i + 1] == s.subrange(i, i + 2)[1]);
    let b0 = s[i];
    let b1 = s[i + 1];
    assert(b0 == (x & 0xff) as u8 && b1 == ((x >> 8u16) & 0xff) as u8 ==> (b0 as u16) | ((
    b1 as u16) << 8u16) == x) by (bit_vector);
}

/// Reading back the bytes of a `u32` gives the `u32`.
pub proof fn lemma_u32_roundtrip(x: u32, s: Seq<u8>, i: int)
    requires
        0 <= i,
        i + 4 <= s.len(),
        s.subrange(i, i + 4) == u32_bytes(x),
    ensures
        u32_le(s, i) == x,
{
    let t = s.subrange(i, i + 4);
    assert(s[i] == t[0] && s[i + 1] == t[1] && s[i + 2] == t[2] && s[i + 3] == t[3]);
    let b0 = s[i];
    let b1 = s[i + 1];
    let b2 = s[i + 2];
    let b3 = s[i + 3];
    assert(b0 == (x & 0xff) as u8 && b1 == ((x >> 8u32) & 0xff) as u8 && b2 == ((x >> 16u32)
        & 0xff) as u8 && b3 == ((x >> 24u32) & 0xff) as u8 ==> (b0 as u32) | ((b1 as u32) << 8u32)
        | ((b2 as u32) << 16u32) | ((b3 as u32) << 24u32) == x) by (bit_vector);
}

/// Reading back the bytes of an `i32` gives the `i32`.
pub proof fn lemma_i32_roundtrip(x: i32, s: Seq<u8>, i: int)
    requires
        0 <= i,
        i + 4 <= s.len(),
        s.subrange(i, i + 4) == i32_bytes(x),
    ensures
        i32_le(s, i) == x,
{
    lemma_u32_roundtrip(x as u32, s, i);
    assert((x as u32) as i32 == x) by (bit_vector);
}

/// Reading back the bytes of a `u64` gives the `u64`.
pub proof fn lemma_u64_roundtrip(x: u64, s: Seq<u8>, i: int)
    requires
        0 <= i,
        i + 8 <= s.len(),
        s.subrange(i, i + 8) == u64_bytes(x),
    ensures
        u64_le(s, i) == x,
{
    assert(s.subrange(i, i + 4) =~= s.subrange(i, i + 8).subrange(0, 4));
    assert(s.subrange(i + 4, i + 8) =~= s.subrange(i, i + 8).subrange(4, 8));
    assert(u64_bytes(x).subrange(0, 4) =~= u32_bytes(x as u32));
    assert(u64_bytes(x).subrange(4, 8) =~= u32_bytes((x >> 32u64) as u32));
    lemma_u32_roundtrip(x as u32, s, i);
    lemma_u32_roundtrip((x >> 32u64) as u32, s, i + 4);
    let lo = x as u32;
    let hi = (x >> 32u64) as u32;
    assert((lo as u64) | ((hi as u64) << 32u64) == x) by (bit_vector)
        requires
            lo == x as u32,
            hi == (x >> 32u64) as u32,
    ;
}

/// Reading back the bytes of an `i64` gives the `i64`.
pub proof fn lemma_i64_roundtrip(x: i64, s: Seq<u8>, i: int)
    requires
        0 <= i,
        i + 8 <= s.len(),
        s.subrange(i, i + 8) == i64_bytes(x),
    ensures
        i64_le(s, i) == x,
{
    lemma_u64_roundtrip(x as u64, s, i);
    assert((x as u64) as i64 == x) by (bit_vector);
}

/// Reads the little-endian `u16` at `pos`.
pub fn read_u16(data: &[u8], pos: usize) -> (r: u16)
    requires
        pos + 2 <= data@.len(),
    ensures
        r == u16_le(data@, pos as int),
{
    (data[pos] as u16) | ((data[pos + 1] as u16) << 8u16)
}

/// Reads the little-endian `u32` at `pos`.
pub fn read_u32(data: &[u8], pos: usize) -> (r: u32)
    requires
        pos + 4 <= data@.len(),
    ensures
        r == u32_le(data@, pos as int),
{
    (data[pos] as u32) | ((data[pos + 1] as u32) << 8u32) | ((data[pos + 2] as u32) << 16u32) | ((
    data[pos + 3] as u32) << 24u32)
}

/// Reads the little-endian `i32` at `pos`.
pub fn read_i32(data: &[u8], pos: usize) -> (r: i32)
    requires
        pos + 4 <= data@.len(),
    ensures
        r == i32_le(data@, pos as int),
{
    read_u32(data, pos) as i32
}

/// Reads the little-endian `i64` at `pos`.
pub fn read_i64(data: &[u8], pos: usize) -> (r: i64)
    requires
        pos + 8 <= data@.len(),
    ensures
        r == i64_le(data@, pos as int),
{
    assert(data@.len() == data.len());
    let lo = read_u32(data, pos);
    let hi = read_u32(data, pos + 4);
    ((lo as u64) | ((hi as u64) << 32u64)) as i64
}

/// Appends the little-endian bytes of `x`.
pub fn push_u16(out: &mut Vec<u8>, x: u16)
    ensures
        final(out)@ == old(out)@ + u16_bytes(x),
{
    out.push((x & 0xff) as u8);
    out.push(((x >> 8u16) & 0xff) as u8);
    assert(final(out)@ =~= old(out)@ + u16_bytes(x));
}

/// Appends the little-endian bytes of `x`.
pub fn push_u32(out: &mut Vec<u8>, x: u32)
    ensures
        final(out)@ == old(out)@ + u32_bytes(x),
{
    out.push((x & 0xff) as u8);
    out.push(((x >> 8u32) & 0xff) as u8);
    out.push(((x >> 16u32) & 0xff) as u8);
    out.push(((x >> 24u32) & 0xff) as u8);
    assert(final(out)@ =~= old(out)@ + u32_bytes(x));
}

/// Appends the little-endian bytes of `x`.
pub fn push_i32(out: &mut Vec<u8>, x: i32)
    ensures
        final(out)@ == old(out)@ + i32_bytes(x),
{
    push_u32(out, x as u32);
}

/// Appends the little-endian bytes of `x`.
pub fn push_i64(out: &mut Vec<u8>, x: i64)
    ensures
        final(out)@ == old(out)@ + i64_bytes(x),
{
    let u = x as u64;
    push_u32(out, u as u32);
    push_u32(out, (u >> 32u64) as u32);
    assert(final(out)@ =~= old(out)@ + i64_bytes(x));
}

/// Appends all of `src`.
pub fn push_all(out: &mut Vec<u8>, src: &[u8])
    ensures
        final(out)@ == old(out)@ + src@,
{
    let mut i: usize = 0;
    while i < src.len()
        invariant
            i <= src@.len(),
            out@ == old(out)@ + src@.take(i as int),
        decreases src@.len() - i,
    {
        out.push(src[i]);
        assert(src@.take(i + 1) =~= src@.take(i as int).push(src@[i as int]));
        i = i + 1;
    }
    assert(src@.take(src@.len() as int) =~= src@);
}

/// Copies `data[start..end]` into a new vector.
pub fn copy_range(data: &[u8], start: usize, end: usize) -> (r: Vec<u8>)
    requires
        start <= end <= data@.len(),
    ensures
        r@ == data@.subrange(start as int, end as int),
{
    let mut r: Vec<u8> = Vec::new();
    let mut i = start;
    while i < end
        invariant
            start <= i <= end,
            end <= data@.len(),
            r@ == data@.subrange(start as int, i as int),
        decreases end - i,
    {
        r.push(data[i]);
        assert(data@.subrange(start as int, i + 1) =~= data@.subrange(start as int, i as int).push(
            data@[i as int],
        ));
        i = i + 1;
    }
    r
}

} // verus!
