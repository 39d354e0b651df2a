//! Bytes: big-endian numbers, and cutting and joining byte strings.
use vstd::array::array_fill_for_copy_types;
use vstd::prelude::*;

verus! {

/// `n` as four bytes, the most significant first.
pub open spec fn be32(n: u32) -> Seq<u8> {
    seq![(n / 0x100_0000) as u8, (n / 0x1_0000 % 0x100) as u8, (n / 0x100 % 0x100) as u8, (n % 0x100) as u8]
}

/// The number that four bytes stand for, the most significant first.
pub open spec fn from_be32(s: Seq<u8>) -> int
    recommends
        s.len() == 4,
{
    s[0] * 0x100_0000 + s[1] * 0x1_0000 + s[2] * 0x100 + s[3]
}

/// `n` as two bytes, the most significant first.
pub open spec fn be16(n: u16) -> Seq<u8> {
    seq![(n / 0x100) as u8, (n % 0x100) as u8]
}

/// The number that two bytes stand for, the most significant first.
pub open spec fn from_be16(s: Seq<u8>) -> int
    recommends
        s.len() == 2,
{
    s[0] * 0x100 + s[1]
}

/// A number of four bytes reads back as it was written.
pub proof fn be32_reads_back(n: u32)
    ensures
        from_be32(be32(n)) == n,
{
}

/// Four bytes are those of the number that they stand for.
pub proof fn be32_writes_back(s: Seq<u8>)
    requires
        s.len() == 4,
    ensures
        0 <= from_be32(s) <= u32::MAX,
        be32(from_be32(s) as u32) == s,
{
    assert(be32(from_be32(s) as u32) =~= s);
}

/// A number of two bytes reads back as it was written.
pub proof fn be16_reads_back(n: u16)
    ensures
        from_be16(be16(n)) == n,
{
}

/// Writes `n` behind `out`, the most significant byte first.
pub fn push_be32(out: &mut Vec<u8>, n: u32)
    ensures
        final(out)@ == old(out)@ + be32(n),
{
    let ghost before = out@;
    out.push((n / 0x100_0000) as u8);
    out.push((n / 0x1_0000 % 0x100) as u8);
    out.push((n / 0x100 % 0x100) as u8);
    out.push((n % 0x100) as u8);
    assert(out@ =~= before + be32(n));
}

/// Reads the four bytes at `at`.
pub fn read_be32(s: &[u8], at: usize) -> (res: u32)
    requires
        at + 4 <= s@.len(),
    ensures
        res == from_be32(s@.subrange(at as int, at + 4)),
{
    s[at] as u32 * 0x100_0000 + s[at + 1] as u32 * 0x1_0000 + s[at + 2] as u32 * 0x100 + s[at + 3] as u32
}

/// Writes `n` behind `out`, the most significant byte first.
pub fn push_be16(out: &mut Vec<u8>, n: u16)
    ensures
        final(out)@ == old(out)@ + be16(n),
{
    let ghost before = out@;
    out.push((n / 0x100) as u8);
    out.push((n % 0x100) as u8);
    assert(out@ =~= before + be16(n));
}

/// Reads the two bytes at `at`.
pub fn read_be16(s: &[u8], at: usize) -> (res: u16)
    requires
        at + 2 <= s@.len(),
    ensures
        res == from_be16(s@.subrange(at as int, at + 2)),
{
    s[at] as u16 * 0x100 + s[at + 1] as u16
}

/// Writes `s` behind `out`.
pub fn extend(out: &mut Vec<u8>, s: &[u8])
    ensures
        final(out)@ == old(out)@ + s@,
{
    let ghost before = out@;
    out.extend_from_slice(s);
    assert(out@ =~= before + s@);
}

/// The bytes `s[from..]`.
pub fn copy_from(s: &[u8], from: usize) -> (res: Vec<u8>)
    requires
        from <= s@.len(),
    ensures
        res@ == s@.skip(from as int),
{
    let mut out: Vec<u8> = Vec::new();
    extend(&mut out, vstd::slice::slice_subrange(s, from, s.len()));
    assert(out@ =~= s@.skip(from as int));
    out
}

/// The `N` bytes at `at`.
pub fn array_at<const N: usize>(s: &[u8], at: usize) -> (res: [u8; N])
    requires
        at + N <= s@.len(),
    ensures
        res@ == s@.subrange(at as int, at + N),
{
    let len: usize = s.len();
    let mut out: [u8; N] = array_fill_for_copy_types(0u8);
    let mut i: usize = 0;
    while i < N
        invariant
            i <= N,
            at + N <= len == s@.len(),
            forall|j: int| 0 <= j < i ==> #[trigger] out@[j] == s@[at + j],
        decreases N - i,
    {
        out[i] = s[at + i];
        i = i + 1;
    }
    assert(out@ =~= s@.subrange(at as int, at + N));
    out
}

/// Whether two byte strings are the same.
pub fn same_bytes(a: &[u8], b: &[u8]) -> (res: bool)
    ensures
        res == (a@ == b@),
{
    if a.len() != b.len() {
        return false;
    }
    let mut i: usize = 0;
    while i < a.len()
        invariant
            i <= a@.len() == b@.len(),
            forall|j: int| 0 <= j < i ==> a@[j] == b@[j],
        decreases a@.len() - i,
    {
        if a[i] != b[i] {
            return false;
        }
        i = i + 1;
    }
    assert(a@ =~= b@);
    true
}

/// Of the four bytes of a number the first counts most: each counts 256 times what the next one
/// does.
pub proof fn be32_goes_by_places(n: u32)
    ensures
        be32(n).len() == 4,
        n == be32(n)[0] * 16777216 + be32(n)[1] * 65536 + be32(n)[2] * 256 + be32(n)[3],
{
}

/// Of the two bytes of a number the first counts 256 times what the second does.
pub proof fn be16_goes_by_places(n: u16)
    ensures
        be16(n).len() == 2,
        n == be16(n)[0] * 256 + be16(n)[1],
{
}

/// The number that bytes stand for counts each of them by its place.
pub proof fn bytes_count_by_place(a: u8, b: u8, c: u8, d: u8)
    ensures
        from_be32(seq![a, b, c, d]) == a * 16777216 + b * 65536 + c * 256 + d,
        from_be16(seq![a, b]) == a * 256 + b,
{
}

}
