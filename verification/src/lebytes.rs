//! Little-endian byte access: the primitive layer every descriptor codec
//! is built on.  All multi-byte integers of ECMA-167 are little-endian.

use vstd::prelude::*;

verus! {

/// The 16-bit value stored little-endian as the two bytes `b0`, `b1`.
pub open spec fn spec_le16(b0: u8, b1: u8) -> u16 {
    (b0 as u16) | ((b1 as u16) << 8)
}

/// The 32-bit value stored little-endian as four bytes.
pub open spec fn spec_le32(b0: u8, b1: u8, b2: u8, b3: u8) -> u32 {
    (b0 as u32) | ((b1 as u32) << 8) | ((b2 as u32) << 16) | ((b3 as u32) << 24)
}

/// The 64-bit value stored little-endian as eight bytes.
pub open spec fn spec_le64(
    b0: u8, b1: u8, b2: u8, b3: u8, b4: u8, b5: u8, b6: u8, b7: u8,
) -> u64 {
    (b0 as u64) | ((b1 as u64) << 8) | ((b2 as u64) << 16) | ((b3 as u64) << 24)
        | ((b4 as u64) << 32) | ((b5 as u64) << 40) | ((b6 as u64) << 48) | ((b7 as u64) << 56)
}

/// The 16-bit little-endian value at offset `i` of `b`.
pub open spec fn le16_at(b: Seq<u8>, i: int) -> u16 {
    spec_le16(b[i], b[i + 1])
}

/// The 32-bit little-endian value at offset `i` of `b`.
pub open spec fn le32_at(b: Seq<u8>, i: int) -> u32 {
    spec_le32(b[i], b[i + 1], b[i + 2], b[i + 3])
}

/// The 64-bit little-endian value at offset `i` of `b`.
pub open spec fn le64_at(b: Seq<u8>, i: int) -> u64 {
    spec_le64(b[i], b[i + 1], b[i + 2], b[i + 3], b[i + 4], b[i + 5], b[i + 6], b[i + 7])
}

/// The 16-bit value stored big-endian (OSTA compressed Unicode uses
/// big-endian code units, unlike every other field).
pub open spec fn spec_be16(b0: u8, b1: u8) -> u16 {
    ((b0 as u16) << 8) | (b1 as u16)
}

pub fn read_le16(b: &[u8], off: usize) -> (r: u16)
    requires
        off + 2 <= b@.len(),
    ensures
        r == le16_at(b@, off as int),
{
    let x0 = b[off];
    let x1 = b[off + 1];
    (x0 as u16) | ((x1 as u16) << 8)
}

pub fn read_le32(b: &[u8], off: usize) -> (r: u32)
    requires
        off + 4 <= b@.len(),
    ensures
        r == le32_at(b@, off as int),
{
    let x0 = b[off];
    let x1 = b[off + 1];
    let x2 = b[off + 2];
    let x3 = b[off + 3];
    (x0 as u32) | ((x1 as u32) << 8) | ((x2 as u32) << 16) | ((x3 as u32) << 24)
}

pub fn read_le64(b: &[u8], off: usize) -> (r: u64)
    requires
        off + 8 <= b@.len(),
    ensures
        r == le64_at(b@, off as int),
{
    let x0 = b[off];
    let x1 = b[off + 1];
    let x2 = b[off + 2];
    let x3 = b[off + 3];
    let x4 = b[off + 4];
    let x5 = b[off + 5];
    let x6 = b[off + 6];
    let x7 = b[off + 7];
    (x0 as u64) | ((x1 as u64) << 8) | ((x2 as u64) << 16) | ((x3 as u64) << 24)
        | ((x4 as u64) << 32) | ((x5 as u64) << 40) | ((x6 as u64) << 48) | ((x7 as u64) << 56)
}

/// Copies `b[off .. off + n]` out as an owned vector.
pub fn read_bytes(b: &[u8], off: usize, n: usize) -> (r: Vec<u8>)
    requires
        off + n <= b@.len(),
    ensures
        r@ == b@.subrange(off as int, off as int + n as int),
{
    let blen = b.len();
    let mut r: Vec<u8> = Vec::new();
    let mut j: usize = 0;
    while j < n
        invariant
            off + n <= blen,
            blen == b@.len(),
            j <= n,
            r@ == b@.subrange(off as int, off as int + j as int),
        decreases n - j,
    {
        r.push(b[off + j]);
        assert(r@ =~= b@.subrange(off as int, off as int + j as int + 1));
        j = j + 1;
    }
    r
}

pub fn push_u8(v: &mut Vec<u8>, x: u8)
    ensures
        final(v)@.len() == old(v)@.len() + 1,
        forall|i: int| 0 <= i < old(v)@.len() ==> final(v)@[i] == old(v)@[i],
        final(v)@[old(v)@.len() as int] == x,
{
    v.push(x);
}

pub fn push_le16(v: &mut Vec<u8>, x: u16)
    ensures
        final(v)@.len() == old(v)@.len() + 2,
        forall|i: int| 0 <= i < old(v)@.len() ==> final(v)@[i] == old(v)@[i],
        le16_at(final(v)@, old(v)@.len() as int) == x,
{
    let lo = (x & 0xff) as u8;
    let hi = ((x >> 8) & 0xff) as u8;
    assert(spec_le16(lo, hi) == x) by (bit_vector)
        requires
            lo == (x & 0xff) as u8,
            hi == ((x >> 8) & 0xff) as u8,
    ;
    v.push(lo);
    v.push(hi);
}

pub fn push_le32(v: &mut Vec<u8>, x: u32)
    ensures
        final(v)@.len() == old(v)@.len() + 4,
        forall|i: int| 0 <= i < old(v)@.len() ==> final(v)@[i] == old(v)@[i],
        le32_at(final(v)@, old(v)@.len() as int) == x,
{
    let b0 = (x & 0xff) as u8;
    let b1 = ((x >> 8) & 0xff) as u8;
    let b2 = ((x >> 16) & 0xff) as u8;
    let b3 = ((x >> 24) & 0xff) as u8;
    assert(spec_le32(b0, b1, b2, b3) == x) by (bit_vector)
        requires
            b0 == (x & 0xff) as u8,
            b1 == ((x >> 8) & 0xff) as u8,
            b2 == ((x >> 16) & 0xff) as u8,
            b3 == ((x >> 24) & 0xff) as u8,
    ;
    v.push(b0);
    v.push(b1);
    v.push(b2);
    v.push(b3);
}

pub fn push_le64(v: &mut Vec<u8>, x: u64)
    ensures
        final(v)@.len() == old(v)@.len() + 8,
        forall|i: int| 0 <= i < old(v)@.len() ==> final(v)@[i] == old(v)@[i],
        le64_at(final(v)@, old(v)@.len() as int) == x,
{
    let b0 = (x & 0xff) as u8;
    let b1 = ((x >> 8) & 0xff) as u8;
    let b2 = ((x >> 16) & 0xff) as u8;
    let b3 = ((x >> 24) & 0xff) as u8;
    let b4 = ((x >> 32) & 0xff) as u8;
    let b5 = ((x >> 40) & 0xff) as u8;
    let b6 = ((x >> 48) & 0xff) as u8;
    let b7 = ((x >> 56) & 0xff) as u8;
    assert(spec_le64(b0, b1, b2, b3, b4, b5, b6, b7) == x) by (bit_vector)
        requires
            b0 == (x & 0xff) as u8,
            b1 == ((x >> 8) & 0xff) as u8,
            b2 == ((x >> 16) & 0xff) as u8,
            b3 == ((x >> 24) & 0xff) as u8,
            b4 == ((x >> 32) & 0xff) as u8,
            b5 == ((x >> 40) & 0xff) as u8,
            b6 == ((x >> 48) & 0xff) as u8,
            b7 == ((x >> 56) & 0xff) as u8,
    ;
    v.push(b0);
    v.push(b1);
    v.push(b2);
    v.push(b3);
    v.push(b4);
    v.push(b5);
    v.push(b6);
    v.push(b7);
}

/// Appends every byte of `s` to `v`.
pub fn push_bytes(v: &mut Vec<u8>, s: &[u8])
    ensures
        final(v)@.len() == old(v)@.len() + s@.len(),
        forall|i: int| 0 <= i < old(v)@.len() ==> final(v)@[i] == old(v)@[i],
        forall|j: int| 0 <= j < s@.len() ==> final(v)@[old(v)@.len() + j] == s@[j],
{
    let n = s.len();
    let mut j: usize = 0;
    while j < n
        invariant
            n == s@.len(),
            j <= n,
            v@.len() == old(v)@.len() + j,
            forall|i: int| 0 <= i < old(v)@.len() ==> v@[i] == old(v)@[i],
            forall|k: int| 0 <= k < j ==> v@[old(v)@.len() + k] == s@[k],
        decreases n - j,
    {
        v.push(s[j]);
        j = j + 1;
    }
}

/// Overwrites `dst[off .. off + src.len()]` with `src`, leaving every
/// other byte and the length unchanged.
pub fn copy_into(dst: &mut Vec<u8>, off: usize, src: &[u8])
    requires
        off + src@.len() <= old(dst)@.len(),
    ensures
        final(dst)@.len() == old(dst)@.len(),
        forall|j: int| 0 <= j < src@.len() ==> final(dst)@[off + j] == src@[j],
        forall|i: int|
            0 <= i < final(dst)@.len() && !(off <= i < off + src@.len()) ==> final(dst)@[i] == old(
                dst,
            )@[i],
{
    let dlen = dst.len();
    let n = src.len();
    let mut j: usize = 0;
    while j < n
        invariant
            n == src@.len(),
            off + n <= dlen,
            j <= n,
            dst@.len() == dlen,
            dst@.len() == old(dst)@.len(),
            forall|k: int| 0 <= k < j ==> dst@[off + k] == src@[k],
            forall|i: int|
                0 <= i < dst@.len() && !(off <= i < off + j) ==> dst@[i] == old(dst)@[i],
        decreases n - j,
    {
        dst.set(off + j, src[j]);
        j = j + 1;
    }
}

} // verus!
