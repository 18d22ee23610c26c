//! Big-endian integers and byte sequences.
use vstd::prelude::*;
use vstd::slice::slice_subrange;

verus! {

/// The number written by two bytes, most significant first.
pub open spec fn be16(hi: u8, lo: u8) -> u16 {
    (hi as int * 256 + lo as int) as u16
}

/// The two bytes of `value`, most significant first.
pub open spec fn be16_bytes(value: u16) -> Seq<u8> {
    seq![(value / 256) as u8, (value % 256) as u8]
}

/// The four bytes of `value`, most significant first.
pub open spec fn be32_bytes(value: u32) -> Seq<u8> {
    seq![
        (value / 0x100_0000) as u8,
        (value / 0x1_0000 % 256) as u8,
        (value / 0x100 % 256) as u8,
        (value % 256) as u8,
    ]
}

/// The eight bytes of `value`, most significant first.
pub open spec fn be64_bytes(value: u64) -> Seq<u8> {
    be32_bytes((value / 0x1_0000_0000) as u32) + be32_bytes((value % 0x1_0000_0000) as u32)
}

/// The number that `bytes` writes, most significant first.
pub open spec fn be_value(bytes: Seq<u8>) -> nat
    decreases bytes.len(),
{
    if bytes.len() == 0 {
        0
    } else {
        be_value(bytes.drop_last()) * 256 + bytes.last() as nat
    }
}

/// Reading back the two bytes of a number gives the number.
pub broadcast proof fn lemma_be16_round_trip(value: u16)
    ensures
        be16_bytes(value).len() == 2,
        be16((#[trigger] be16_bytes(value))[0], be16_bytes(value)[1]) == value,
{
}

/// Two bytes are the bytes of the number they write.
pub proof fn lemma_be16_bytes_of(hi: u8, lo: u8)
    ensures
        be16_bytes(be16(hi, lo)) == seq![hi, lo],
{
    assert(be16_bytes(be16(hi, lo)) =~= seq![hi, lo]);
}

/// Reads the two bytes at `at`.
pub fn read_be16(bytes: &[u8], at: usize) -> (value: u16)
    requires
        at + 1 < bytes@.len(),
    ensures
        value == be16(bytes@[at as int], bytes@[at + 1]),
{
    (bytes[at] as u16) * 256 + bytes[at + 1] as u16
}

/// Appends a slice.
pub fn push_all(out: &mut Vec<u8>, bytes: &[u8])
    ensures
        final(out)@ == old(out)@ + bytes@,
{
    out.extend_from_slice(bytes);
    assert(out@ =~= old(out)@ + bytes@);
}

/// Appends the two bytes of `value`.
pub fn push_be16(out: &mut Vec<u8>, value: u16)
    ensures
        final(out)@ == old(out)@ + be16_bytes(value),
{
    out.push((value / 256) as u8);
    out.push((value % 256) as u8);
    assert(out@ =~= old(out)@ + be16_bytes(value));
}

/// Appends the four bytes of `value`.
pub fn push_be32(out: &mut Vec<u8>, value: u32)
    ensures
        final(out)@ == old(out)@ + be32_bytes(value),
{
    out.push((value / 0x100_0000) as u8);
    out.push((value / 0x1_0000 % 256) as u8);
    out.push((value / 0x100 % 256) as u8);
    out.push((value % 256) as u8);
    assert(out@ =~= old(out)@ + be32_bytes(value));
}

/// Appends the eight bytes of `value`.
pub fn push_be64(out: &mut Vec<u8>, value: u64)
    ensures
        final(out)@ == old(out)@ + be64_bytes(value),
{
    push_be32(out, (value / 0x1_0000_0000) as u32);
    push_be32(out, (value % 0x1_0000_0000) as u32);
    assert(out@ =~= old(out)@ + be64_bytes(value));
}

/// Copies `from..to` of `bytes`.
pub fn copy_range(bytes: &[u8], from: usize, to: usize) -> (out: Vec<u8>)
    requires
        from <= to <= bytes@.len(),
    ensures
        out@ == bytes@.subrange(from as int, to as int),
{
    let mut out: Vec<u8> = Vec::new();
    push_all(&mut out, slice_subrange(bytes, from, to));
    assert(out@ =~= bytes@.subrange(from as int, to as int));
    out
}

/// Whether two slices hold the same bytes.
pub fn same_bytes(left: &[u8], right: &[u8]) -> (same: bool)
    ensures
        same == (left@ == right@),
{
    if left.len() != right.len() {
        return false;
    }
    for i in 0..left.len()
        invariant
            left@.len() == right@.len(),
            forall|j: int| 0 <= j < i ==> left@[j] == right@[j],
    {
        if left[i] != right[i] {
            return false;
        }
    }
    assert(left@ =~= right@);
    true
}

/// Drops the first `count` bytes.
pub fn drop_front(bytes: &mut Vec<u8>, count: usize)
    requires
        count <= old(bytes)@.len(),
    ensures
        final(bytes)@ == old(bytes)@.skip(count as int),
{
    let rest = copy_range(bytes.as_slice(), count, bytes.len());
    assert(rest@ =~= old(bytes)@.skip(count as int));
    *bytes = rest;
}

/// Four bytes starting at `at`.
pub fn array4(bytes: &[u8], at: usize) -> (out: [u8; 4])
    requires
        at + 4 <= bytes@.len(),
    ensures
        out@ == bytes@.subrange(at as int, at + 4),
{
    let out = [bytes[at], bytes[at + 1], bytes[at + 2], bytes[at + 3]];
    assert(out@ =~= bytes@.subrange(at as int, at + 4));
    out
}

/// Sixteen bytes starting at `at`.
pub fn array16(bytes: &[u8], at: usize) -> (out: [u8; 16])
    requires
        at + 16 <= bytes@.len(),
    ensures
        out@ == bytes@.subrange(at as int, at + 16),
{
    let mut out: [u8; 16] = [0; 16];
    for i in 0..16usize
        invariant
            at + 16 <= bytes.len(),
            forall|j: int| 0 <= j < i ==> out@[j] == bytes@[at + j],
    {
        out[i] = bytes[at + i];
    }
    assert(out@ =~= bytes@.subrange(at as int, at + 16));
    out
}

/// Thirty-two bytes starting at `at`.
pub fn array32(bytes: &[u8], at: usize) -> (out: [u8; 32])
    requires
        at + 32 <= bytes@.len(),
    ensures
        out@ == bytes@.subrange(at as int, at + 32),
{
    let mut out: [u8; 32] = [0; 32];
    for i in 0..32usize
        invariant
            at + 32 <= bytes.len(),
            forall|j: int| 0 <= j < i ==> out@[j] == bytes@[at + j],
    {
        out[i] = bytes[at + i];
    }
    assert(out@ =~= bytes@.subrange(at as int, at + 32));
    out
}

/// What each of several byte strings holds.
pub open spec fn byte_views(parts: Seq<Vec<u8>>) -> Seq<Seq<u8>> {
    parts.map_values(|part: Vec<u8>| part@)
}

/// Two, four and eight bytes write a number with the most significant byte
/// first.
pub proof fn law_big_endian(hi: u8, lo: u8, short: u16, word: u32, long: u64)
    ensures
        be16(hi, lo) == hi * 256 + lo,
        be16_bytes(short).len() == 2,
        be16_bytes(short)[0] * 256 + be16_bytes(short)[1] == short,
        be32_bytes(word).len() == 4,
        be32_bytes(word)[0] * 0x100_0000 + be32_bytes(word)[1] * 0x1_0000 + be32_bytes(word)[2]
            * 0x100 + be32_bytes(word)[3] == word,
        be64_bytes(long).len() == 8,
        be64_bytes(long).take(4) == be32_bytes((long / 0x1_0000_0000) as u32),
        be64_bytes(long).skip(4) == be32_bytes((long % 0x1_0000_0000) as u32),
{
    assert(be64_bytes(long).take(4) =~= be32_bytes((long / 0x1_0000_0000) as u32));
    assert(be64_bytes(long).skip(4) =~= be32_bytes((long % 0x1_0000_0000) as u32));
}

} // verus!
