//! The key derivation: a cascade of keyed hashes, one for each path segment.
use crate::crypto::{hmac_sha256, hmac_sha256_tag};
use crate::octets::push_all;
use crate::text::utf8;
use vstd::prelude::*;
use vstd::slice::slice_subrange;

verus! {

/// The segments that some slices hold.
pub open spec fn segments(path: Seq<&[u8]>) -> Seq<Seq<u8>> {
    path.map_values(|segment: &[u8]| segment@)
}

/// A key brought to the length of a block: zeros are appended.
pub open spec fn padded(key: Seq<u8>) -> Seq<u8> {
    key + Seq::new((64 - key.len()) as nat, |i: int| 0u8)
}

/// Every byte combined with `mask`.
pub open spec fn masked(block: Seq<u8>, mask: u8) -> Seq<u8> {
    block.map_values(|byte: u8| byte ^ mask)
}

/// The keyed hash of `data`. Each segment of the path is the key of an HMAC
/// whose own hash is that of the path without it; the innermost is HMAC-SHA-256
/// under a fixed label.
pub open spec fn cascade(path: Seq<Seq<u8>>, data: Seq<u8>) -> Seq<u8>
    decreases path.len(),
{
    if path.len() == 0 {
        hmac_sha256_tag(utf8("VMess AEAD KDF"@), data)
    } else {
        let parent = path.drop_last();
        let key = path.last();
        let block = if key.len() > 64 {
            padded(cascade(parent, key))
        } else {
            padded(key)
        };
        cascade(
            parent,
            masked(block, 0x5c) + cascade(parent, masked(block, 0x36) + data),
        )
    }
}

/// Appends a block combined with `mask`.
fn push_masked(out: &mut Vec<u8>, block: &[u8; 64], mask: u8)
    ensures
        final(out)@ == old(out)@ + masked(block@, mask),
{
    for i in 0..64usize
        invariant
            out@ == old(out)@ + masked(block@.take(i as int), mask),
    {
        out.push(block[i] ^ mask);
        assert(out@ =~= old(out)@ + masked(block@.take(i + 1), mask));
    }
    assert(block@.take(64) =~= block@);
}

/// Computes the cascade.
fn nested_hmac(path: &[&[u8]], data: &[u8]) -> (tag: [u8; 32])
    ensures
        tag@ == cascade(segments(path@), data@),
    decreases path@.len(),
{
    if path.len() == 0 {
        assert(segments(path@).len() == 0);
        return hmac_sha256("VMess AEAD KDF".as_bytes(), data);
    }
    let last: usize = path.len() - 1;
    let key: &[u8] = path[last];
    let parent = slice_subrange(path, 0, last);
    assert(segments(parent@) =~= segments(path@).drop_last());
    assert(segments(path@).last() == key@);
    let mut block: [u8; 64] = [0; 64];
    let ghost source: Seq<u8>;
    if key.len() > 64 {
        let digest = nested_hmac(parent, key);
        for i in 0..32usize
            invariant
                forall|j: int| 0 <= j < i ==> block@[j] == digest@[j],
                forall|j: int| i <= j < 64 ==> block@[j] == 0,
        {
            block[i] = digest[i];
        }
        proof {
            source = digest@;
        }
    } else {
        for i in 0..key.len()
            invariant
                key@.len() <= 64,
                forall|j: int| 0 <= j < i ==> block@[j] == key@[j],
                forall|j: int| i <= j < 64 ==> block@[j] == 0,
        {
            block[i] = key[i];
        }
        proof {
            source = key@;
        }
    }
    assert(block@ =~= padded(source));
    let mut inner_input: Vec<u8> = Vec::new();
    push_masked(&mut inner_input, &block, 0x36);
    push_all(&mut inner_input, data);
    assert(inner_input@ =~= masked(block@, 0x36) + data@);
    let inner_digest = nested_hmac(parent, inner_input.as_slice());
    let mut outer_input: Vec<u8> = Vec::new();
    push_masked(&mut outer_input, &block, 0x5c);
    push_all(&mut outer_input, &inner_digest);
    assert(outer_input@ =~= masked(block@, 0x5c) + inner_digest@);
    nested_hmac(parent, outer_input.as_slice())
}

/// Derives 32 bytes from a key and a path.
pub fn kdf(key: &[u8], path: &[&[u8]]) -> (out: [u8; 32])
    ensures
        out@ == cascade(segments(path@), key@),
{
    nested_hmac(path, key)
}

/// Derives 16 bytes: the first of the 32.
pub fn kdf16(key: &[u8], path: &[&[u8]]) -> (out: [u8; 16])
    ensures
        out@ == cascade(segments(path@), key@).take(16),
{
    let full = kdf(key, path);
    let mut out: [u8; 16] = [0; 16];
    for i in 0..16usize
        invariant
            forall|j: int| 0 <= j < i ==> out@[j] == full@[j],
    {
        out[i] = full[i];
    }
    assert(out@ =~= full@.take(16));
    out
}

/// Derives 12 bytes: the first of the 32.
pub fn kdf12(key: &[u8], path: &[&[u8]]) -> (out: [u8; 12])
    ensures
        out@ == cascade(segments(path@), key@).take(12),
{
    let full = kdf(key, path);
    let mut out: [u8; 12] = [0; 12];
    for i in 0..12usize
        invariant
            forall|j: int| 0 <= j < i ==> out@[j] == full@[j],
    {
        out[i] = full[i];
    }
    assert(out@ =~= full@.take(12));
    out
}

/// The key derivation without a path is HMAC-SHA-256 under its label. A segment
/// of at most a block is the key of an HMAC over the derivation without it: the
/// derivation of the outer block and of that of the inner block and the data,
/// the key filled up with zeros and combined with 0x5c and 0x36.
pub proof fn law_cascade(path: Seq<Seq<u8>>, key: Seq<u8>, data: Seq<u8>)
    ensures
        cascade(Seq::empty(), data) == hmac_sha256_tag(utf8("VMess AEAD KDF"@), data),
        key.len() <= 64 ==> {
            let filled = |i: int|
                if i < key.len() {
                    key[i]
                } else {
                    0u8
                };
            let outer = Seq::new(64, |i: int| filled(i) ^ 0x5cu8);
            let inner = Seq::new(64, |i: int| filled(i) ^ 0x36u8);
            cascade(path.push(key), data) == cascade(path, outer + cascade(path, inner + data))
        },
        key.len() > 64 && cascade(path, key).len() <= 64 ==> cascade(path.push(key), data)
            == cascade(path.push(cascade(path, key)), data),
{
    assert(path.push(key).drop_last() =~= path);
    if key.len() <= 64 {
        let filled = |i: int|
            if i < key.len() {
                key[i]
            } else {
                0u8
            };
        assert(masked(padded(key), 0x5c) =~= Seq::new(64, |i: int| filled(i) ^ 0x5cu8));
        assert(masked(padded(key), 0x36) =~= Seq::new(64, |i: int| filled(i) ^ 0x36u8));
    } else {
        assert(path.push(cascade(path, key)).drop_last() =~= path);
    }
}

} // verus!
