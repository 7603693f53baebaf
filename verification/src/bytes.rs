//! Big-endian integers and byte strings, as the signed payloads lay them out.
use vstd::prelude::*;

verus! {

/// The two big-endian bytes of `v`.
pub open spec fn be16(v: u16) -> Seq<u8> {
    seq![(v >> 8u16) as u8, v as u8]
}

/// The value of two big-endian bytes.
pub open spec fn be16_value(s: Seq<u8>) -> u16 {
    ((s[0] as u16) << 8u16) | (s[1] as u16)
}

/// The four big-endian bytes of `v`.
pub open spec fn be32(v: u32) -> Seq<u8> {
    seq![(v >> 24u32) as u8, (v >> 16u32) as u8, (v >> 8u32) as u8, v as u8]
}

/// The value of four big-endian bytes.
pub open spec fn be32_value(s: Seq<u8>) -> u32 {
    ((s[0] as u32) << 24u32) | ((s[1] as u32) << 16u32) | ((s[2] as u32) << 8u32) | (s[3] as u32)
}

/// The eight big-endian bytes of `v`.
pub open spec fn be64(v: u64) -> Seq<u8> {
    seq![
        (v >> 56u64) as u8,
        (v >> 48u64) as u8,
        (v >> 40u64) as u8,
        (v >> 32u64) as u8,
        (v >> 24u64) as u8,
        (v >> 16u64) as u8,
        (v >> 8u64) as u8,
        v as u8,
    ]
}

/// The value of eight big-endian bytes.
pub open spec fn be64_value(s: Seq<u8>) -> u64 {
    ((s[0] as u64) << 56u64) | ((s[1] as u64) << 48u64) | ((s[2] as u64) << 40u64) | ((
    s[3] as u64) << 32u64) | ((s[4] as u64) << 24u64) | ((s[5] as u64) << 16u64) | ((s[6] as u64)
        << 8u64) | (s[7] as u64)
}

/// Reading back the big-endian bytes of a number gives the number.
pub proof fn lemma_be16_round_trip(v: u16)
    ensures
        be16_value(be16(v)) == v,
{
    assert((((((v >> 8u16) as u8) as u16) << 8u16) | ((v as u8) as u16)) == v) by (bit_vector);
}

/// Two bytes are the big-endian bytes of their value.
pub proof fn lemma_be16_canonical(s: Seq<u8>)
    requires
        s.len() == 2,
    ensures
        be16(be16_value(s)) =~= s,
{
    let (a, b) = (s[0], s[1]);
    assert((((((a as u16) << 8u16) | (b as u16)) >> 8u16) as u8) == a) by (bit_vector);
    assert(((((a as u16) << 8u16) | (b as u16)) as u8) == b) by (bit_vector);
}

pub proof fn lemma_be32_round_trip(v: u32)
    ensures
        be32_value(be32(v)) == v,
{
    assert((((((v >> 24u32) as u8) as u32) << 24u32) | ((((v >> 16u32) as u8) as u32) << 16u32)
        | ((((v >> 8u32) as u8) as u32) << 8u32) | ((v as u8) as u32)) == v) by (bit_vector);
}

pub proof fn lemma_be32_canonical(s: Seq<u8>)
    requires
        s.len() == 4,
    ensures
        be32(be32_value(s)) =~= s,
{
    let (a, b, c, d) = (s[0], s[1], s[2], s[3]);
    let v = be32_value(s);
    assert(v == ((a as u32) << 24u32) | ((b as u32) << 16u32) | ((c as u32) << 8u32) | (d as u32));
    assert(((v >> 24u32) as u8) == a) by (bit_vector)
        requires
            v == ((a as u32) << 24u32) | ((b as u32) << 16u32) | ((c as u32) << 8u32) | (d as u32),
    ;
    assert(((v >> 16u32) as u8) == b) by (bit_vector)
        requires
            v == ((a as u32) << 24u32) | ((b as u32) << 16u32) | ((c as u32) << 8u32) | (d as u32),
    ;
    assert(((v >> 8u32) as u8) == c) by (bit_vector)
        requires
            v == ((a as u32) << 24u32) | ((b as u32) << 16u32) | ((c as u32) << 8u32) | (d as u32),
    ;
    assert((v as u8) == d) by (bit_vector)
        requires
            v == ((a as u32) << 24u32) | ((b as u32) << 16u32) | ((c as u32) << 8u32) | (d as u32),
    ;
}

pub proof fn lemma_be64_round_trip(v: u64)
    ensures
        be64_value(be64(v)) == v,
{
    assert((((((v >> 56u64) as u8) as u64) << 56u64) | ((((v >> 48u64) as u8) as u64) << 48u64)
        | ((((v >> 40u64) as u8) as u64) << 40u64) | ((((v >> 32u64) as u8) as u64) << 32u64) | ((((
    v >> 24u64) as u8) as u64) << 24u64) | ((((v >> 16u64) as u8) as u64) << 16u64) | ((((v
        >> 8u64) as u8) as u64) << 8u64) | ((v as u8) as u64)) == v) by (bit_vector);
}

pub proof fn lemma_be64_canonical(s: Seq<u8>)
    requires
        s.len() == 8,
    ensures
        be64(be64_value(s)) =~= s,
{
    let (b0, b1, b2, b3, b4, b5, b6, b7) = (s[0], s[1], s[2], s[3], s[4], s[5], s[6], s[7]);
    let v = be64_value(s);
    assert(v == ((b0 as u64) << 56u64) | ((b1 as u64) << 48u64) | ((b2 as u64) << 40u64) | ((
    b3 as u64) << 32u64) | ((b4 as u64) << 24u64) | ((b5 as u64) << 16u64) | ((b6 as u64)
        << 8u64) | (b7 as u64));
    assert(((v >> 56u64) as u8) == b0 && ((v >> 48u64) as u8) == b1 && ((v >> 40u64) as u8) == b2
        && ((v >> 32u64) as u8) == b3 && ((v >> 24u64) as u8) == b4 && ((v >> 16u64) as u8) == b5
        && ((v >> 8u64) as u8) == b6 && (v as u8) == b7) by (bit_vector)
        requires
            v == ((b0 as u64) << 56u64) | ((b1 as u64) << 48u64) | ((b2 as u64) << 40u64) | ((
            b3 as u64) << 32u64) | ((b4 as u64) << 24u64) | ((b5 as u64) << 16u64) | ((
            b6 as u64) << 8u64) | (b7 as u64),
    ;
}

/// Appends a byte string.
pub(crate) fn push_bytes(out: &mut Vec<u8>, b: &[u8])
    ensures
        final(out)@ == old(out)@ + b@,
{
    let ghost start = out@;
    let mut i: usize = 0;
    while i < b.len()
        invariant
            0 <= i <= b@.len(),
            out@ == start + b@.subrange(0, i as int),
        decreases b@.len() - i,
    {
        out.push(b[i]);
        i = i + 1;
        assert(b@.subrange(0, i as int) == b@.subrange(0, i - 1) + seq![b@[i - 1]]);
    }
    assert(b@.subrange(0, b@.len() as int) == b@);
}

pub(crate) fn push_be16(out: &mut Vec<u8>, v: u16)
    ensures
        final(out)@ == old(out)@ + be16(v),
{
    out.push((v >> 8u16) as u8);
    out.push(v as u8);
    assert(out@ =~= old(out)@ + be16(v));
}

pub(crate) fn push_be32(out: &mut Vec<u8>, v: u32)
    ensures
        final(out)@ == old(out)@ + be32(v),
{
    out.push((v >> 24u32) as u8);
    out.push((v >> 16u32) as u8);
    out.push((v >> 8u32) as u8);
    out.push(v as u8);
    assert(out@ =~= old(out)@ + be32(v));
}

pub(crate) fn push_be64(out: &mut Vec<u8>, v: u64)
    ensures
        final(out)@ == old(out)@ + be64(v),
{
    out.push((v >> 56u64) as u8);
    out.push((v >> 48u64) as u8);
    out.push((v >> 40u64) as u8);
    out.push((v >> 32u64) as u8);
    out.push((v >> 24u64) as u8);
    out.push((v >> 16u64) as u8);
    out.push((v >> 8u64) as u8);
    out.push(v as u8);
    assert(out@ =~= old(out)@ + be64(v));
}

/// The big-endian `u16` at `at`.
pub(crate) fn read_be16(b: &[u8], at: usize) -> (r: u16)
    requires
        at + 2 <= b@.len(),
    ensures
        r == be16_value(b@.subrange(at as int, at + 2)),
{
    ((b[at] as u16) << 8u16) | (b[at + 1] as u16)
}

/// The big-endian `u32` at `at`.
pub(crate) fn read_be32(b: &[u8], at: usize) -> (r: u32)
    requires
        at + 4 <= b@.len(),
    ensures
        r == be32_value(b@.subrange(at as int, at + 4)),
{
    ((b[at] as u32) << 24u32) | ((b[at + 1] as u32) << 16u32) | ((b[at + 2] as u32) << 8u32) | (b[at
        + 3] as u32)
}

/// The big-endian `u64` at `at`.
pub(crate) fn read_be64(b: &[u8], at: usize) -> (r: u64)
    requires
        at + 8 <= b@.len(),
    ensures
        r == be64_value(b@.subrange(at as int, at + 8)),
{
    ((b[at] as u64) << 56u64) | ((b[at + 1] as u64) << 48u64) | ((b[at + 2] as u64) << 40u64) | ((
    b[at + 3] as u64) << 32u64) | ((b[at + 4] as u64) << 24u64) | ((b[at + 5] as u64) << 16u64) | ((
    b[at + 6] as u64) << 8u64) | (b[at + 7] as u64)
}

/// A fresh copy of `len` bytes of `b` from `at`.
pub(crate) fn copy_range(b: &[u8], at: usize, len: usize) -> (r: Vec<u8>)
    requires
        at + len <= b@.len(),
    ensures
        r@ == b@.subrange(at as int, at + len),
{
    let mut out: Vec<u8> = Vec::new();
    let blen = b.len();
    let mut i: usize = 0;
    while i < len
        invariant
            blen == b@.len(),
            0 <= i <= len,
            at + len <= b@.len(),
            out@ == b@.subrange(at as int, at + i),
        decreases len - i,
    {
        out.push(b[at + i]);
        i = i + 1;
        assert(b@.subrange(at as int, at + i) == b@.subrange(at as int, at + i - 1) + seq![
            b@[at + i - 1],
        ]);
    }
    out
}

/// Whether two byte strings are equal.
pub(crate) fn bytes_equal(a: &[u8], b: &[u8]) -> (r: bool)
    ensures
        r == (a@ == b@),
{
    if a.len() != b.len() {
        return false;
    }
    let mut i: usize = 0;
    while i < a.len()
        invariant
            0 <= i <= a@.len(),
            a@.len() == b@.len(),
            forall|j: int| 0 <= j < i ==> a@[j] == b@[j],
        decreases a@.len() - i,
    {
        if a[i] != b[i] {
            return false;
        }
        i = i + 1;
    }
    assert(a@ =~= b@);
    true
}

/// Copies 16 bytes from `at` into an array.
pub(crate) fn array16_at(b: &[u8], at: usize) -> (r: [u8; 16])
    requires
        at + 16 <= b@.len(),
    ensures
        r@ == b@.subrange(at as int, at + 16),
{
    let mut x = [0u8; 16];
    let blen = b.len();
    let mut i: usize = 0;
    while i < 16
        invariant
            blen == b@.len(),
            0 <= i <= 16,
            at + 16 <= b@.len(),
            forall|j: int| 0 <= j < i ==> x@[j] == b@[at + j],
        decreases 16 - i,
    {
        x[i] = b[at + i];
        i = i + 1;
    }
    assert(x@ =~= b@.subrange(at as int, at + 16));
    x
}

/// Copies 32 bytes from `at` into an array.
pub(crate) fn array32_at(b: &[u8], at: usize) -> (r: [u8; 32])
    requires
        at + 32 <= b@.len(),
    ensures
        r@ == b@.subrange(at as int, at + 32),
{
    let mut x = [0u8; 32];
    let blen = b.len();
    let mut i: usize = 0;
    while i < 32
        invariant
            blen == b@.len(),
            0 <= i <= 32,
            at + 32 <= b@.len(),
            forall|j: int| 0 <= j < i ==> x@[j] == b@[at + j],
        decreases 32 - i,
    {
        x[i] = b[at + i];
        i = i + 1;
    }
    assert(x@ =~= b@.subrange(at as int, at + 32));
    x
}

/// Copies 64 bytes from `at` into an array.
pub(crate) fn array64_at(b: &[u8], at: usize) -> (r: [u8; 64])
    requires
        at + 64 <= b@.len(),
    ensures
        r@ == b@.subrange(at as int, at + 64),
{
    let mut x = [0u8; 64];
    let blen = b.len();
    let mut i: usize = 0;
    while i < 64
        invariant
            blen == b@.len(),
            0 <= i <= 64,
            at + 64 <= b@.len(),
            forall|j: int| 0 <= j < i ==> x@[j] == b@[at + j],
        decreases 64 - i,
    {
        x[i] = b[at + i];
        i = i + 1;
    }
    assert(x@ =~= b@.subrange(at as int, at + 64));
    x
}

/// Copies 24 bytes from `at` into an array.
pub(crate) fn array24_at(b: &[u8], at: usize) -> (r: [u8; 24])
    requires
        at + 24 <= b@.len(),
    ensures
        r@ == b@.subrange(at as int, at + 24),
{
    let mut x = [0u8; 24];
    let blen = b.len();
    let mut i: usize = 0;
    while i < 24
        invariant
            blen == b@.len(),
            0 <= i <= 24,
            at + 24 <= b@.len(),
            forall|j: int| 0 <= j < i ==> x@[j] == b@[at + j],
        decreases 24 - i,
    {
        x[i] = b[at + i];
        i = i + 1;
    }
    assert(x@ =~= b@.subrange(at as int, at + 24));
    x
}

} // verus!
