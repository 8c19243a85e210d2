//! Calls into outside crates (and std functions that vstd does not specify).
//! Each function here is trusted: its contract is believed, not proved.
use vstd::prelude::*;
use base64::engine::general_purpose::URL_SAFE_NO_PAD;
use base64::Engine as _;
use aes_gcm::aead::{Aead, KeyInit, Payload};
use aes_gcm::Aes256Gcm;
use argon2::{Algorithm, Argon2, Params, Version};
use data_encoding::BASE32_NOPAD;
use hkdf::Hkdf;
use subtle::ConstantTimeEq;
use hmac::{Hmac, Mac};
use sha2::{Digest, Sha256};
use time::format_description::well_known::Rfc3339;
use time::OffsetDateTime;

verus! {

/// What `URL_SAFE_NO_PAD.decode` (base64 crate) gives for a text: the bytes, or
/// nothing when the text is not canonical unpadded base64url.
pub uninterp spec fn base64url_decode(text: Seq<char>) -> Option<Seq<u8>>;

/// What `URL_SAFE_NO_PAD.encode` (base64 crate) gives for some bytes.
pub uninterp spec fn base64url_encode(data: Seq<u8>) -> Seq<char>;



/// Every character is ASCII.
pub open spec fn all_ascii(s: Seq<char>) -> bool {
    vstd::utf8::is_ascii_chars(s)
}

/// `base64::engine::general_purpose::URL_SAFE_NO_PAD.decode`: the decoded bytes, or
/// `None` where the crate returns a `DecodeError`.
#[verifier::external_body]
pub(crate) fn b64url_decode(text: &str) -> (r: Option<Vec<u8>>)
    ensures
        r matches Some(v) ==> base64url_decode(text@) == Some(v@),
        r is None ==> base64url_decode(text@) is None,
{
    URL_SAFE_NO_PAD.decode(text.as_bytes()).ok()
}

/// `base64::engine::general_purpose::URL_SAFE_NO_PAD.encode`: the unpadded base64url
/// text of `data`. It is ASCII, holds no `=`, and decodes back to `data`.
#[verifier::external_body]
pub(crate) fn b64url_encode(data: &[u8]) -> (r: String)
    requires
        data@.len() <= usize::MAX / 2,
    ensures
        r@ == base64url_encode(data@),
        r@.len() == (4 * data@.len() + 2) / 3,
        all_ascii(r@),
        !r@.contains('='),
        base64url_decode(r@) == Some(data@),
{
    URL_SAFE_NO_PAD.encode(data)
}

/// What SHA-256 (sha2 crate) gives for some bytes.
pub uninterp spec fn sha256_spec(data: Seq<u8>) -> Seq<u8>;

/// The `len` bytes that HKDF-SHA-256 (hkdf crate) expands from `ikm` with `salt`
/// and `info`.
pub uninterp spec fn hkdf_sha256_spec(salt: Seq<u8>, ikm: Seq<u8>, info: Seq<u8>, len: nat) -> Seq<u8>;

/// What HMAC-SHA-256 (hmac crate) gives for a key and a message.
pub uninterp spec fn hmac_sha256_spec(key: Seq<u8>, msg: Seq<u8>) -> Seq<u8>;

/// `Sha256::digest` (sha2 crate): the 32-byte digest of `data`.
#[verifier::external_body]
pub(crate) fn sha256(data: &[u8]) -> (r: [u8; 32])
    ensures
        r@ == sha256_spec(data@),
{
    Sha256::digest(data).into()
}

/// `Hkdf::<Sha256>::new(Some(salt), ikm).expand(info, okm)` (hkdf crate): fills `okm`
/// with the HKDF-SHA-256 output of its length. The crate fails only when `okm` is
/// longer than 255 hash lengths, which `requires` rules out.
#[verifier::external_body]
pub(crate) fn hkdf_sha256(salt: &[u8], ikm: &[u8], info: &[u8], okm: &mut [u8])
    requires
        old(okm)@.len() <= 255 * 32,
    ensures
        final(okm)@.len() == old(okm)@.len(),
        final(okm)@ == hkdf_sha256_spec(salt@, ikm@, info@, old(okm)@.len()),
{
    let hk = Hkdf::<Sha256>::new(Some(salt), ikm);
    let _ = hk.expand(info, okm);
}

/// `Hmac::<Sha256>::new_from_slice(key)`, `update(msg)`, `finalize()` (hmac crate):
/// the 32-byte MAC of `msg` under `key`. The crate accepts keys of every length.
#[verifier::external_body]
pub(crate) fn hmac_sha256(key: &[u8], msg: &[u8]) -> (r: [u8; 32])
    ensures
        r@ == hmac_sha256_spec(key@, msg@),
{
    match <Hmac<Sha256> as Mac>::new_from_slice(key) {
        Ok(mut mac) => {
            mac.update(msg);
            mac.finalize().into_bytes().into()
        },
        Err(_) => [0u8; 32],
    }
}


/// `rand::random::<[u8; 32]>()`: 32 random bytes from the thread-local generator.
/// Nothing is stated of their values.
#[verifier::external_body]
pub(crate) fn random_32() -> (r: [u8; 32]) {
    rand::random()
}

/// `rand::random::<[u8; 16]>()`: 16 random bytes. Nothing is stated of their values.
#[verifier::external_body]
pub(crate) fn random_16() -> (r: [u8; 16]) {
    rand::random()
}

/// `rand::random::<[u8; 12]>()`: 12 random bytes. Nothing is stated of their values.
#[verifier::external_body]
pub(crate) fn random_12() -> (r: [u8; 12]) {
    rand::random()
}


/// The 32-byte Argon2id (version 0x13) output (argon2 crate) for a password, salt,
/// memory cost in KiB, iterations and parallelism.
pub uninterp spec fn argon2id_spec(password: Seq<u8>, salt: Seq<u8>, memory_kib: u32, iterations: u32, parallelism: u32) -> Seq<u8>;

/// The parameters and inputs that the argon2 crate accepts for a 32-byte output:
/// at least 8 KiB and 8 KiB per lane, at least one iteration, 1 to 2^24 - 1 lanes,
/// a password of at most 2^32 - 1 bytes, and a salt of 8 to 2^32 - 1 bytes.
pub open spec fn argon2_accepts(password_len: nat, salt_len: nat, memory_kib: u32, iterations: u32, parallelism: u32) -> bool {
    &&& memory_kib >= 8
    &&& memory_kib >= 8 * parallelism
    &&& iterations >= 1
    &&& 1 <= parallelism <= 0xFFFFFF
    &&& password_len <= 0xFFFF_FFFF
    &&& 8 <= salt_len <= 0xFFFF_FFFF
}

/// `Params::new(m, t, p, Some(32))` and
/// `Argon2::new(Algorithm::Argon2id, Version::V0x13, params).hash_password_into`
/// (argon2 crate): the 32-byte key, or `None` where the crate rejects the inputs.
/// `requires` keeps `8 * p` within `u32`, which `Params::new` computes, and the
/// memory that `hash_password_into` allocates within 1 GiB.
#[verifier::external_body]
pub(crate) fn argon2id_hash(password: &[u8], salt: &[u8], memory_kib: u32, iterations: u32, parallelism: u32) -> (r: Option<[u8; 32]>)
    requires
        parallelism <= 0xFFFFFF,
        memory_kib <= 0x10_0000,
    ensures
        r is Some <==> argon2_accepts(password@.len(), salt@.len(), memory_kib, iterations, parallelism),
        r matches Some(k) ==> k@ == argon2id_spec(password@, salt@, memory_kib, iterations, parallelism),
{
    let params = match Params::new(memory_kib, iterations, parallelism, Some(32)) {
        Ok(p) => p,
        Err(_) => return None,
    };
    let mut key = [0u8; 32];
    match Argon2::new(Algorithm::Argon2id, Version::V0x13, params).hash_password_into(password, salt, &mut key) {
        Ok(()) => Some(key),
        Err(_) => None,
    }
}

/// What AES-256-GCM encryption (aes-gcm crate) gives: ciphertext with the tag appended.
pub uninterp spec fn aes256gcm_encrypt_spec(key: Seq<u8>, nonce: Seq<u8>, msg: Seq<u8>, aad: Seq<u8>) -> Seq<u8>;

/// What AES-256-GCM decryption (aes-gcm crate) gives: the plaintext, or nothing
/// when authentication fails.
pub uninterp spec fn aes256gcm_decrypt_spec(key: Seq<u8>, nonce: Seq<u8>, ct: Seq<u8>, aad: Seq<u8>) -> Option<Seq<u8>>;

/// `Aes256Gcm::new_from_slice(key)` then `encrypt(nonce, Payload { msg, aad })`
/// (aes-gcm crate): fails only when the message or the associated data is longer
/// than 2^36 bytes; the result is the message's length plus a 16-byte tag, and
/// decrypting it with the same key, nonce and associated data gives the message back.
#[verifier::external_body]
pub(crate) fn aes256gcm_encrypt(key: &[u8; 32], nonce: &[u8; 12], msg: &[u8], aad: &[u8]) -> (r: Option<Vec<u8>>)
    ensures
        r is Some <==> (msg@.len() <= 0x10_0000_0000 && aad@.len() <= 0x10_0000_0000),
        r matches Some(ct) ==> ct@ == aes256gcm_encrypt_spec(key@, nonce@, msg@, aad@),
        r matches Some(ct) ==> ct@.len() == msg@.len() + 16,
        r is Some ==> aes256gcm_decrypt_spec(key@, nonce@, aes256gcm_encrypt_spec(key@, nonce@, msg@, aad@), aad@) == Some(msg@),
{
    let cipher = match <Aes256Gcm as KeyInit>::new_from_slice(key) {
        Ok(c) => c,
        Err(_) => return None,
    };
    cipher.encrypt(nonce.into(), Payload { msg, aad }).ok()
}

/// `Aes256Gcm::new_from_slice(key)` then `decrypt(nonce, Payload { msg: ct, aad })`
/// (aes-gcm crate): the plaintext, or `None` where authentication fails.
#[verifier::external_body]
pub(crate) fn aes256gcm_decrypt(key: &[u8; 32], nonce: &[u8; 12], ct: &[u8], aad: &[u8]) -> (r: Option<Vec<u8>>)
    ensures
        match r {
            Some(pt) => aes256gcm_decrypt_spec(key@, nonce@, ct@, aad@) == Some(pt@),
            None => aes256gcm_decrypt_spec(key@, nonce@, ct@, aad@) is None,
        },
{
    let cipher = match <Aes256Gcm as KeyInit>::new_from_slice(key) {
        Ok(c) => c,
        Err(_) => return None,
    };
    cipher.decrypt(nonce.into(), Payload { msg: ct, aad }).ok()
}

/// What `BASE32_NOPAD.encode` (data-encoding crate) gives for some bytes.
pub uninterp spec fn base32_nopad_spec(data: Seq<u8>) -> Seq<char>;

/// A symbol of the RFC 4648 base32 alphabet: `A`-`Z` and `2`-`7`.
pub open spec fn is_base32_symbol(c: char) -> bool {
    ('A' <= c && c <= 'Z') || ('2' <= c && c <= '7')
}

/// `data_encoding::BASE32_NOPAD.encode`: unpadded RFC 4648 base32, one symbol per
/// five bits, rounded up, written with the symbols `A`-`Z` and `2`-`7`. The crate
/// asserts that the input holds at most `usize::MAX / 512` bytes.
#[verifier::external_body]
pub(crate) fn base32_nopad(data: &[u8]) -> (r: String)
    requires
        data@.len() <= usize::MAX / 512,
    ensures
        r@ == base32_nopad_spec(data@),
        all_ascii(r@),
        r@.len() == (8 * data@.len() + 4) / 5,
        forall|i: int| 0 <= i < r@.len() ==> is_base32_symbol(#[trigger] r@[i]),
{
    BASE32_NOPAD.encode(data)
}

/// `a.ct_eq(b).into()` (subtle crate): whether two byte strings are equal, compared
/// in time independent of their contents when their lengths agree.
#[verifier::external_body]
pub(crate) fn ct_eq_bytes(a: &[u8], b: &[u8]) -> (r: bool)
    ensures
        r == (a@ == b@),
{
    a.ct_eq(b).into()
}

/// The instant that `OffsetDateTime::parse(text, &Rfc3339)` (time crate) reads from
/// a text, as nanoseconds since the Unix epoch; nothing when it does not parse.
pub uninterp spec fn rfc3339_unix_nanos(text: Seq<char>) -> Option<int>;

/// `OffsetDateTime::parse(text, &Rfc3339)` then `unix_timestamp_nanos()` (time crate):
/// the instant, or `None` where parsing fails. Years stay within the crate's range
/// (at most 999 999 from year 0 even with its large-dates feature), which bounds
/// the result.
#[verifier::external_body]
pub(crate) fn rfc3339_nanos(text: &str) -> (r: Option<i128>)
    ensures
        match r {
            Some(n) => rfc3339_unix_nanos(text@) == Some(n as int),
            None => rfc3339_unix_nanos(text@) is None,
        },
        r matches Some(n) ==> -100_000_000_000_000_000_000_000 <= n <= 100_000_000_000_000_000_000_000,
{
    match OffsetDateTime::parse(text, &Rfc3339) {
        Ok(t) => Some(t.unix_timestamp_nanos()),
        Err(_) => None,
    }
}

/// `OffsetDateTime::now_utc().unix_timestamp_nanos()` (time crate): the current
/// time in nanoseconds since the Unix epoch, within the crate's year range.
#[verifier::external_body]
pub(crate) fn now_unix_nanos() -> (r: i128)
    ensures
        -100_000_000_000_000_000_000_000 <= r <= 100_000_000_000_000_000_000_000,
{
    OffsetDateTime::now_utc().unix_timestamp_nanos()
}

/// `OffsetDateTime::now_utc().format(&Rfc3339)` (time crate): the current time as
/// RFC 3339 text, which `OffsetDateTime::parse(_, &Rfc3339)` reads back. Which time
/// it is, is not stated. The crate fails only for years outside 0 to 9999, where
/// this gives an empty text.
#[verifier::external_body]
pub(crate) fn now_rfc3339() -> (r: String)
    ensures
        r@.len() > 0 ==> rfc3339_unix_nanos(r@) is Some,
{
    match OffsetDateTime::now_utc().format(&Rfc3339) {
        Ok(s) => s,
        Err(_) => String::new(),
    }
}

/// A symbol of Crockford's base32 alphabet as the ulid crate writes it:
/// `0`-`9` and the upper-case letters other than `I`, `L`, `O` and `U`.
pub open spec fn is_crockford_symbol(c: char) -> bool {
    ('0' <= c && c <= '9') || ('A' <= c && c <= 'Z' && c != 'I' && c != 'L' && c != 'O' && c != 'U')
}

/// `ulid::Ulid::new().to_string()` (ulid crate): a fresh ULID from the clock and
/// the thread-local generator, as 26 Crockford base32 symbols. Which ULID it is, is
/// not stated.
#[verifier::external_body]
pub(crate) fn new_ulid_text() -> (r: String)
    ensures
        r@.len() == 26,
        forall|i: int| 0 <= i < 26 ==> is_crockford_symbol(#[trigger] r@[i]),
{
    ulid::Ulid::new().to_string()
}

} // verus!
