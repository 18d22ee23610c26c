//! Digests, ciphers, encodings and random numbers of outside crates.
use aes::cipher::{BlockEncrypt, KeyInit};
use aes_gcm::aead::Aead;
use base64::Engine;
use hmac::Mac;
use rand::{Rng, RngCore};
use sha2::Digest;
use vstd::prelude::*;

verus! {

/// The SHA-224 digest of some bytes.
pub uninterp spec fn sha224_digest(bytes: Seq<u8>) -> Seq<u8>;

/// `sha2::Sha224::digest`: the digest is a function of the bytes.
#[verifier::external_body]
pub(crate) fn sha224(bytes: &[u8]) -> (digest: [u8; 28])
    ensures
        digest@ == sha224_digest(bytes@),
{
    sha2::Sha224::digest(bytes).into()
}

/// The SHA-256 digest of some bytes.
pub uninterp spec fn sha256_digest(bytes: Seq<u8>) -> Seq<u8>;

/// `sha2::Sha256::digest`: the digest is a function of the bytes.
#[verifier::external_body]
pub(crate) fn sha256(bytes: &[u8]) -> (digest: [u8; 32])
    ensures
        digest@ == sha256_digest(bytes@),
{
    sha2::Sha256::digest(bytes).into()
}

/// The MD5 digest of some bytes.
pub uninterp spec fn md5_digest(bytes: Seq<u8>) -> Seq<u8>;

/// `md5::Md5::digest`: the digest is a function of the bytes.
#[verifier::external_body]
pub(crate) fn md5(bytes: &[u8]) -> (digest: [u8; 16])
    ensures
        digest@ == md5_digest(bytes@),
{
    md5::Md5::digest(bytes).into()
}

/// The HMAC-SHA-256 of some bytes under a key.
pub uninterp spec fn hmac_sha256_tag(key: Seq<u8>, bytes: Seq<u8>) -> Seq<u8>;

/// `hmac::Hmac<Sha256>`, keyed, fed once and finalized: the tag is a function
/// of the key and the bytes, and every key length is accepted.
#[verifier::external_body]
pub(crate) fn hmac_sha256(key: &[u8], bytes: &[u8]) -> (tag: [u8; 32])
    ensures
        tag@ == hmac_sha256_tag(key@, bytes@),
{
    let mut mac =
        <hmac::Hmac<sha2::Sha256> as Mac>::new_from_slice(key).expect("every length is a key");
    mac.update(bytes);
    mac.finalize().into_bytes().into()
}

/// The CRC-32 of some bytes.
pub uninterp spec fn crc32_value(bytes: Seq<u8>) -> u32;

/// `crc32fast::hash`: the checksum is a function of the bytes.
#[verifier::external_body]
pub(crate) fn crc32(bytes: &[u8]) -> (value: u32)
    ensures
        value == crc32_value(bytes@),
{
    crc32fast::hash(bytes)
}

/// One AES-128 block encrypted under a key.
pub uninterp spec fn aes128_block(key: Seq<u8>, block: Seq<u8>) -> Seq<u8>;

/// `aes::Aes128::encrypt_block`: the block is a function of the key and the
/// plain block.
#[verifier::external_body]
pub(crate) fn aes128_encrypt_block(key: &[u8; 16], block: [u8; 16]) -> (out: [u8; 16])
    ensures
        out@ == aes128_block(key@, block@),
{
    let mut out = aes::Block::from(block);
    aes::Aes128::new(aes::cipher::generic_array::GenericArray::from_slice(key)).encrypt_block(
        &mut out,
    );
    out.into()
}

/// A message sealed by AES-128-GCM: the ciphertext, then the tag.
pub uninterp spec fn aes128_gcm_sealed(
    key: Seq<u8>,
    nonce: Seq<u8>,
    message: Seq<u8>,
    associated: Seq<u8>,
) -> Seq<u8>;

/// `aes_gcm::Aes128Gcm::encrypt`: the sealed message is a function of the key,
/// the nonce, the message and the associated data, it is sixteen bytes longer
/// than the message, and messages and associated data below 2^36 bytes are
/// never refused.
#[verifier::external_body]
pub(crate) fn aes128_gcm_seal(
    key: &[u8; 16],
    nonce: &[u8; 12],
    message: &[u8],
    associated: &[u8],
) -> (sealed: Result<Vec<u8>, String>)
    ensures
        message@.len() < 0x10_0000_0000 && associated@.len() < 0x10_0000_0000 ==> sealed is Ok,
        sealed matches Ok(bytes) ==> bytes@ == aes128_gcm_sealed(
            key@,
            nonce@,
            message@,
            associated@,
        ) && bytes@.len() == message@.len() + 16,
{
    let cipher = aes_gcm::Aes128Gcm::new(aes::cipher::generic_array::GenericArray::from_slice(key));
    cipher.encrypt(
        aes_gcm::Nonce::from_slice(nonce),
        aes_gcm::aead::Payload { msg: message, aad: associated },
    ).map_err(|error| error.to_string())
}

/// Bytes in base64, in the standard alphabet with padding.
pub uninterp spec fn base64_text(bytes: Seq<u8>) -> Seq<char>;

/// The bytes that a base64 text writes, or the text of the error.
pub uninterp spec fn base64_bytes(text: Seq<char>) -> Result<Seq<u8>, Seq<char>>;

/// Whether a character is of the standard base64 alphabet or its padding.
pub open spec fn base64_symbol(c: char) -> bool {
    ||| 'A' <= c && c <= 'Z'
    ||| 'a' <= c && c <= 'z'
    ||| '0' <= c && c <= '9'
    ||| c == '+'
    ||| c == '/'
    ||| c == '='
}

/// Whether a text is made of base64 symbols.
pub open spec fn all_base64_symbols(text: Seq<char>) -> bool {
    forall|i: int| 0 <= i < text.len() ==> base64_symbol(#[trigger] text[i])
}

/// `base64::engine::general_purpose::STANDARD.encode`: the text is a function
/// of the bytes, it has four base64 symbols for each three bytes or part of
/// them, and decoding it gives the bytes back.
#[verifier::external_body]
pub(crate) fn base64_encode(bytes: &[u8]) -> (text: String)
    ensures
        text@ == base64_text(bytes@),
        all_base64_symbols(text@),
        text@.len() == (bytes@.len() + 2) / 3 * 4,
        base64_bytes(text@) is Ok && base64_bytes(text@)->Ok_0 == bytes@,
{
    base64::engine::general_purpose::STANDARD.encode(bytes)
}

/// `base64::engine::general_purpose::STANDARD.decode`: the bytes, or the text
/// of the error, are a function of the text.
#[verifier::external_body]
pub(crate) fn base64_decode(text: &str) -> (bytes: Result<Vec<u8>, String>)
    ensures
        bytes is Ok <==> base64_bytes(text@) is Ok,
        bytes matches Ok(bytes) ==> (base64_bytes(text@) matches Ok(decoded) && decoded == bytes@),
        bytes matches Err(error) ==> (base64_bytes(text@) matches Err(reason) && reason == error@),
{
    base64::engine::general_purpose::STANDARD.decode(text).map_err(|error| error.to_string())
}

/// The bytes of a UUID in text form, or the text of the error.
pub uninterp spec fn uuid_bytes(text: Seq<char>) -> Result<Seq<u8>, Seq<char>>;

/// `uuid::Uuid::parse_str`: the bytes, or the text of the error, are a function
/// of the text.
#[verifier::external_body]
pub(crate) fn uuid_parse(text: &str) -> (bytes: Result<[u8; 16], String>)
    ensures
        bytes is Ok <==> uuid_bytes(text@) is Ok,
        bytes matches Ok(bytes) ==> (uuid_bytes(text@) matches Ok(decoded) && decoded == bytes@),
        bytes matches Err(error) ==> (uuid_bytes(text@) matches Err(reason) && reason == error@),
{
    uuid::Uuid::parse_str(text).map(|uuid| *uuid.as_bytes()).map_err(|error| error.to_string())
}

/// The text of the error where a name is no TLS server name.
pub uninterp spec fn server_name_error(name: Seq<char>) -> Option<Seq<char>>;

/// `rustls::pki_types::ServerName::try_from`: whether a name is accepted, and
/// the text of the error where it is not, are a function of the name.
#[verifier::external_body]
pub(crate) fn check_server_name(name: &str) -> (checked: Result<(), String>)
    ensures
        checked is Ok <==> server_name_error(name@) is None,
        checked matches Err(error) ==> server_name_error(name@) == Some(error@),
{
    rustls::pki_types::ServerName::try_from(name).map(|_| ()).map_err(|error| error.to_string())
}

/// `rand::RngCore::fill_bytes` of the thread's generator.
#[verifier::external_body]
pub(crate) fn random_bytes<const N: usize>() -> (bytes: [u8; N]) {
    let mut bytes = [0u8; N];
    rand::rng().fill_bytes(&mut bytes);
    bytes
}

/// `rand::RngCore::next_u32` of the thread's generator.
#[verifier::external_body]
pub(crate) fn random_u32() -> (value: u32) {
    rand::rng().next_u32()
}

/// `rand::Rng::random_range` of the thread's generator: the number lies in the
/// range.
#[verifier::external_body]
pub(crate) fn random_between(low: i64, high: i64) -> (value: i64)
    requires
        low <= high,
    ensures
        low <= value <= high,
{
    rand::rng().random_range(low..=high)
}

} // verus!
