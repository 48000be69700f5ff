//! Fixed-width integers in byte sequences.
use vstd::prelude::*;

verus! {

/// The big-endian 16-bit value at `at`.
pub open spec fn be16_at(s: Seq<u8>, at: int) -> u16 {
    (0x100 * s[at] + s[at + 1]) as u16
}

/// The little-endian 16-bit value at `at`.
pub open spec fn le16_at(s: Seq<u8>, at: int) -> u16 {
    (s[at] + 0x100 * s[at + 1]) as u16
}

/// The big-endian 32-bit value at `at`.
pub open spec fn be32_at(s: Seq<u8>, at: int) -> u32 {
    (0x100_0000 * s[at] + 0x1_0000 * s[at + 1] + 0x100 * s[at + 2] + s[at + 3]) as u32
}

/// The little-endian 32-bit value at `at`.
pub open spec fn le32_at(s: Seq<u8>, at: int) -> u32 {
    (s[at] + 0x100 * s[at + 1] + 0x1_0000 * s[at + 2] + 0x100_0000 * s[at + 3]) as u32
}

/// The two bytes of `x`, most significant first.
pub open spec fn be16_bytes(x: u16) -> Seq<u8> {
    seq![(x / 0x100) as u8, (x % 0x100) as u8]
}

/// The two bytes of `x`, least significant first.
pub open spec fn le16_bytes(x: u16) -> Seq<u8> {
    seq![(x % 0x100) as u8, (x / 0x100) as u8]
}

/// The four bytes of `x`, most significant first.
pub open spec fn be32_bytes(x: u32) -> Seq<u8> {
    seq![
        (x / 0x100_0000) as u8,
        (x / 0x1_0000 % 0x100) as u8,
        (x / 0x100 % 0x100) as u8,
        (x % 0x100) as u8,
    ]
}

/// The four bytes of `x`, least significant first.
pub open spec fn le32_bytes(x: u32) -> Seq<u8> {
    seq![
        (x % 0x100) as u8,
        (x / 0x100 % 0x100) as u8,
        (x / 0x1_0000 % 0x100) as u8,
        (x / 0x100_0000) as u8,
    ]
}

/// Reading back what was written gives the value, at any offset and in either byte order.
pub proof fn law_read_of_write(prefix: Seq<u8>, suffix: Seq<u8>, x: u16, y: u32)
    ensures
        be16_at(prefix + be16_bytes(x) + suffix, prefix.len() as int) == x,
        le16_at(prefix + le16_bytes(x) + suffix, prefix.len() as int) == x,
        be32_at(prefix + be32_bytes(y) + suffix, prefix.len() as int) == y,
        le32_at(prefix + le32_bytes(y) + suffix, prefix.len() as int) == y,
{
}

/// The number that bytes stand for, the most significant first.
pub open spec fn big(b: Seq<u8>) -> nat
    decreases b.len(),
{
    if b.len() == 0 {
        0
    } else {
        256 * big(b.drop_last()) + b.last() as nat
    }
}

/// The number that bytes stand for, the least significant first.
pub open spec fn little(b: Seq<u8>) -> nat
    decreases b.len(),
{
    if b.len() == 0 {
        0
    } else {
        b[0] as nat + 256 * little(b.skip(1))
    }
}

pub proof fn lemma_big2(b: Seq<u8>)
    requires
        b.len() == 2,
    ensures
        big(b) == 256 * b[0] + b[1],
{
    reveal_with_fuel(big, 3);
    assert(b.drop_last().drop_last().len() == 0);
}

pub proof fn lemma_big4(b: Seq<u8>)
    requires
        b.len() == 4,
    ensures
        big(b) == 0x100_0000 * b[0] + 0x1_0000 * b[1] + 0x100 * b[2] + b[3],
{
    reveal_with_fuel(big, 5);
    let (c, d) = (b.drop_last(), b.drop_last().drop_last());
    assert(c.last() == b[2] && d.last() == b[1] && d.drop_last().last() == b[0]);
}

pub proof fn lemma_little2(b: Seq<u8>)
    requires
        b.len() == 2,
    ensures
        little(b) == b[0] + 256 * b[1],
{
    reveal_with_fuel(little, 3);
    assert(b.skip(1)[0] == b[1]);
}

pub proof fn lemma_little4(b: Seq<u8>)
    requires
        b.len() == 4,
    ensures
        little(b) == b[0] + 0x100 * b[1] + 0x1_0000 * b[2] + 0x100_0000 * b[3],
{
    reveal_with_fuel(little, 5);
    let (c, d) = (b.skip(1), b.skip(1).skip(1));
    assert(c[0] == b[1] && d[0] == b[2] && d.skip(1)[0] == b[3]);
}

/// Values that are read and written are the numbers that their bytes stand for.
pub proof fn law_numbers(s: Seq<u8>, at: int, x: u16, y: u32)
    requires
        0 <= at,
    ensures
        at + 2 <= s.len() ==> be16_at(s, at) == big(s.subrange(at, at + 2)) && le16_at(s, at)
            == little(s.subrange(at, at + 2)),
        at + 4 <= s.len() ==> be32_at(s, at) == big(s.subrange(at, at + 4)) && le32_at(s, at)
            == little(s.subrange(at, at + 4)),
        be16_bytes(x).len() == 2 && big(be16_bytes(x)) == x,
        le16_bytes(x).len() == 2 && little(le16_bytes(x)) == x,
        be32_bytes(y).len() == 4 && big(be32_bytes(y)) == y,
        le32_bytes(y).len() == 4 && little(le32_bytes(y)) == y,
{
    lemma_big2(be16_bytes(x));
    lemma_little2(le16_bytes(x));
    lemma_big4(be32_bytes(y));
    lemma_little4(le32_bytes(y));
    if at + 2 <= s.len() {
        lemma_big2(s.subrange(at, at + 2));
        lemma_little2(s.subrange(at, at + 2));
    }
    if at + 4 <= s.len() {
        lemma_big4(s.subrange(at, at + 4));
        lemma_little4(s.subrange(at, at + 4));
    }
}

/// Read a big-endian 16-bit value.
pub fn read_be16(b: &[u8], at: usize) -> (r: u16)
    requires
        at + 2 <= b.len(),
    ensures
        r == be16_at(b@, at as int),
{
    0x100 * (b[at] as u16) + b[at + 1] as u16
}

/// Read a little-endian 16-bit value.
pub fn read_le16(b: &[u8], at: usize) -> (r: u16)
    requires
        at + 2 <= b.len(),
    ensures
        r == le16_at(b@, at as int),
{
    b[at] as u16 + 0x100 * (b[at + 1] as u16)
}

/// Read a big-endian 32-bit value.
pub fn read_be32(b: &[u8], at: usize) -> (r: u32)
    requires
        at + 4 <= b.len(),
    ensures
        r == be32_at(b@, at as int),
{
    0x100_0000 * (b[at] as u32) + 0x1_0000 * (b[at + 1] as u32) + 0x100 * (b[at + 2] as u32)
        + b[at + 3] as u32
}

/// Read a little-endian 32-bit value.
pub fn read_le32(b: &[u8], at: usize) -> (r: u32)
    requires
        at + 4 <= b.len(),
    ensures
        r == le32_at(b@, at as int),
{
    b[at] as u32 + 0x100 * (b[at + 1] as u32) + 0x1_0000 * (b[at + 2] as u32) + 0x100_0000 * (b[at
        + 3] as u32)
}

/// Append a big-endian 16-bit value.
pub fn push_be16(out: &mut Vec<u8>, x: u16)
    ensures
        final(out)@ == old(out)@ + be16_bytes(x),
{
    out.push((x / 0x100) as u8);
    out.push((x % 0x100) as u8);
    assert(out@ =~= old(out)@ + be16_bytes(x));
}

/// Append a little-endian 16-bit value.
pub fn push_le16(out: &mut Vec<u8>, x: u16)
    ensures
        final(out)@ == old(out)@ + le16_bytes(x),
{
    out.push((x % 0x100) as u8);
    out.push((x / 0x100) as u8);
    assert(out@ =~= old(out)@ + le16_bytes(x));
}

/// Append a big-endian 32-bit value.
pub fn push_be32(out: &mut Vec<u8>, x: u32)
    ensures
        final(out)@ == old(out)@ + be32_bytes(x),
{
    out.push((x / 0x100_0000) as u8);
    out.push((x / 0x1_0000 % 0x100) as u8);
    out.push((x / 0x100 % 0x100) as u8);
    out.push((x % 0x100) as u8);
    assert(out@ =~= old(out)@ + be32_bytes(x));
}

/// Append a little-endian 32-bit value.
pub fn push_le32(out: &mut Vec<u8>, x: u32)
    ensures
        final(out)@ == old(out)@ + le32_bytes(x),
{
    out.push((x % 0x100) as u8);
    out.push((x / 0x100 % 0x100) as u8);
    out.push((x / 0x1_0000 % 0x100) as u8);
    out.push((x / 0x100_0000) as u8);
    assert(out@ =~= old(out)@ + le32_bytes(x));
}

/// Append a run of bytes.
pub fn push_slice(out: &mut Vec<u8>, s: &[u8])
    ensures
        final(out)@ == old(out)@ + s@,
{
    out.extend_from_slice(s);
    assert(out@ =~= old(out)@ + s@);
}

/// A copy of the bytes from `from` up to `to`.
pub fn copy_range(s: &[u8], from: usize, to: usize) -> (r: Vec<u8>)
    requires
        from <= to <= s.len(),
    ensures
        r@ == s@.subrange(from as int, to as int),
{
    vstd::slice::slice_to_vec(vstd::slice::slice_subrange(s, from, to))
}

/// Whether two byte strings are the same.
pub fn same_bytes(a: &[u8], b: &[u8]) -> (r: bool)
    ensures
        r == (a@ == b@),
{
    if a.len() != b.len() {
        return false;
    }
    let mut i: usize = 0;
    while i < a.len()
        invariant
            i <= a.len(),
            a.len() == b.len(),
            forall|j: int| 0 <= j < i ==> a@[j] == b@[j],
        decreases a.len() - i,
    {
        if a[i] != b[i] {
            return false;
        }
        i += 1;
    }
    assert(a@ =~= b@);
    true
}

} // verus!
