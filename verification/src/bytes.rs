//! Little-endian fields and byte-string primitives shared by every format.
use vstd::prelude::*;
use vstd::slice::slice_subrange;

verus! {

/// The 16-bit little-endian number stored at `off`.
pub open spec fn le16_at(s: Seq<u8>, off: int) -> u16 {
    (s[off] + s[off + 1] * 0x100) as u16
}

/// The 32-bit little-endian number stored at `off`.
#[verifier::opaque]
pub open spec fn le32_at(s: Seq<u8>, off: int) -> u32 {
    (s[off] + s[off + 1] * 0x100 + s[off + 2] * 0x1_0000 + s[off + 3] * 0x100_0000) as u32
}

/// The two little-endian bytes of `x`.
pub open spec fn le16_bytes(x: u16) -> Seq<u8> {
    seq![(x % 0x100) as u8, (x / 0x100) as u8]
}

/// The four little-endian bytes of `x`.
#[verifier::opaque]
pub open spec fn le32_bytes(x: u32) -> Seq<u8> {
    seq![
        (x % 0x100) as u8,
        (x / 0x100 % 0x100) as u8,
        (x / 0x1_0000 % 0x100) as u8,
        (x / 0x100_0000) as u8,
    ]
}

/// The window of `n` bytes that starts at `off`.
pub open spec fn window(s: Seq<u8>, off: int, n: int) -> Seq<u8> {
    s.subrange(off, off + n)
}

/// A 32-bit number takes four bytes.
pub broadcast proof fn lemma_le32_len(x: u32)
    ensures
        #[trigger] le32_bytes(x).len() == 4,
{
    reveal(le32_bytes);
}

/// A 32-bit number written in little-endian order reads back unchanged.
pub proof fn lemma_le32_roundtrip(x: u32)
    ensures
        le32_bytes(x).len() == 4,
        le32_at(le32_bytes(x), 0) == x,
{
    reveal(le32_bytes);
    reveal(le32_at);
}

/// A number is read from the four bytes at its offset alone.
pub proof fn lemma_le32_window(s: Seq<u8>, off: int)
    requires
        0 <= off,
        off + 4 <= s.len(),
    ensures
        le32_at(s, off) == le32_at(window(s, off, 4), 0),
{
    reveal(le32_at);
    let w = window(s, off, 4);
    assert(w[0] == s[off] && w[1] == s[off + 1] && w[2] == s[off + 2] && w[3] == s[off + 3]);
}

/// A field that holds the bytes of `x` reads as `x`.
pub proof fn lemma_le32_field(s: Seq<u8>, off: int, x: u32)
    requires
        0 <= off,
        off + 4 <= s.len(),
        window(s, off, 4) == le32_bytes(x),
    ensures
        le32_at(s, off) == x,
{
    lemma_le32_window(s, off);
    lemma_le32_roundtrip(x);
}

/// Reads the 16-bit little-endian number at `off`.
pub fn rd_u16(buf: &[u8], off: usize) -> (x: u16)
    requires
        off + 2 <= buf@.len(),
    ensures
        x == le16_at(buf@, off as int),
{
    buf[off] as u16 + buf[off + 1] as u16 * 0x100
}

/// Reads the 32-bit little-endian number at `off`.
pub fn rd_u32(buf: &[u8], off: usize) -> (x: u32)
    requires
        off + 4 <= buf@.len(),
    ensures
        x == le32_at(buf@, off as int),
{
    proof {
        reveal(le32_at);
    }
    buf[off] as u32 + buf[off + 1] as u32 * 0x100 + buf[off + 2] as u32 * 0x1_0000
        + buf[off + 3] as u32 * 0x100_0000
}

/// Appends the two little-endian bytes of `x`.
pub fn push_u16(out: &mut Vec<u8>, x: u16)
    ensures
        final(out)@ == old(out)@ + le16_bytes(x),
{
    out.push((x % 0x100) as u8);
    out.push((x / 0x100) as u8);
}

/// Appends the four little-endian bytes of `x`.
pub fn push_u32(out: &mut Vec<u8>, x: u32)
    ensures
        final(out)@ == old(out)@ + le32_bytes(x),
{
    proof {
        reveal(le32_bytes);
    }
    out.push((x % 0x100) as u8);
    out.push((x / 0x100 % 0x100) as u8);
    out.push((x / 0x1_0000 % 0x100) as u8);
    out.push((x / 0x100_0000) as u8);
}

/// Appends a copy of `data`.
pub fn push_bytes(out: &mut Vec<u8>, data: &[u8])
    ensures
        final(out)@ == old(out)@ + data@,
{
    let ghost start = out@;
    let mut i: usize = 0;
    while i < data.len()
        invariant
            i <= data@.len(),
            out@ == start + data@.take(i as int),
        decreases data@.len() - i,
    {
        out.push(data[i]);
        proof {
            assert(data@.take(i + 1) =~= data@.take(i as int).push(data@[i as int]));
        }
        i += 1;
    }
    assert(data@.take(i as int) =~= data@);
}

/// Whether two byte strings are equal.
pub fn bytes_eq(a: &[u8], b: &[u8]) -> (r: bool)
    ensures
        r == (a@ == b@),
{
    if a.len() != b.len() {
        return false;
    }
    let mut i: usize = 0;
    while i < a.len()
        invariant
            i <= a@.len(),
            a@.len() == b@.len(),
            forall|k: int| 0 <= k < i ==> a@[k] == b@[k],
        decreases a@.len() - i,
    {
        if a[i] != b[i] {
            return false;
        }
        i += 1;
    }
    assert(a@ =~= b@);
    true
}

/// Whether `needle` is found in `buf` at `off`.
pub fn window_eq(buf: &[u8], off: usize, needle: &[u8]) -> (r: bool)
    requires
        off + needle@.len() <= buf@.len(),
    ensures
        r == (window(buf@, off as int, needle@.len() as int) == needle@),
{
    let _len: usize = buf.len();
    bytes_eq(slice_subrange(buf, off, off + needle.len()), needle)
}

/// The low 32 bits of a number.
pub fn low32(n: u64) -> (r: u32)
    ensures
        r == n % 0x1_0000_0000,
{
    assert(n as u32 == n % 0x1_0000_0000) by (bit_vector);
    n as u32
}

/// Numbers are little-endian: the first byte counts ones, each further one 256 times more than the
/// one before it. What is written reads back.
pub proof fn law_little_endian(a: u8, b: u8, c: u8, d: u8, x: u32, y: u16)
    ensures
        le16_at(seq![a, b], 0) == a + 0x100 * b,
        le32_at(seq![a, b, c, d], 0) == a + 0x100 * b + 0x1_0000 * c + 0x100_0000 * d,
        le32_at(le32_bytes(x), 0) == x,
        le16_at(le16_bytes(y), 0) == y,
{
    reveal(le32_at);
    lemma_le32_roundtrip(x);
}

} // verus!
