//! Seed envelopes (Argon2id + AES-256-GCM), seed fingerprints, and rewrap.
use vstd::prelude::*;
use vstd::utf8::encode_utf8;
use crate::codec::ascii_text;
use crate::primitives::{
    aes256gcm_decrypt, aes256gcm_decrypt_spec, aes256gcm_encrypt, aes256gcm_encrypt_spec,
    argon2_accepts, argon2id_hash, argon2id_spec, b64url_decode, b64url_encode, base64url_decode,
    random_12, random_16, random_32,
};
use crate::text::{decimal, follows_key, lemma_decimal_len, lemma_encode_utf8_len, push_decimal, same_text};

verus! {

pub const SEED_ENVELOPE_FORMAT_V1: &'static str = "seedpass-seed-v1";
pub const SEED_FINGERPRINT_INFO_V1: &'static str = "seedpass-v1/seed-fingerprint";
pub const CREDENTIAL_KEY_INFO_V1: &'static str = "seedpass-v1/credential-key";
pub const STREAM_DOMAIN_V1: &'static str = "seedpass-v1/stream";
pub const ROOT_SEED_LEN: usize = 32;
pub const SEED_FINGERPRINT_LEN: usize = 16;
pub const ARGON2_KEY_LEN: usize = 32;
pub const ARGON2_VERSION: u32 = 19;
pub const AES_GCM_NONCE_LEN: usize = 12;
pub const ARGON2_MIN_MEMORY_KIB: u32 = 19 * 1024;
pub const ARGON2_MIN_ITERATIONS: u32 = 2;
pub const ARGON2_MIN_PARALLELISM: u32 = 1;
pub const ARGON2_RECOMMENDED_MEMORY_KIB: u32 = 262144;
pub const ARGON2_RECOMMENDED_ITERATIONS: u32 = 3;
pub const ARGON2_RECOMMENDED_PARALLELISM: u32 = 4;
pub const ARGON2_MAX_MEMORY_KIB: u32 = 1024 * 1024;
pub const ARGON2_MAX_ITERATIONS: u32 = 10;
pub const ARGON2_MAX_PARALLELISM: u32 = 16;
pub const ARGON2_MAX_SALT_LEN: usize = 64;
pub const SEED_ENVELOPE_MAX_CIPHERTEXT_LEN: usize = 1024;
/// The only key derivation function a `seedpass-seed-v1` envelope names.
pub const KDF_NAME_ARGON2ID: &'static str = "argon2id";
/// The only cipher a `seedpass-seed-v1` envelope names.
pub const CIPHER_NAME_AES256GCM: &'static str = "aes-256-gcm";

/// Errors of seed envelopes and fingerprints.
#[derive(Debug)]
pub enum CryptoError {
    UnsupportedFormat(String),
    UnsupportedKdf(String),
    UnsupportedArgon2Version(u32),
    UnsupportedCipher(String),
    InvalidBase64(&'static str),
    InvalidLength { field: &'static str, expected: usize, actual: usize },
    InvalidArgon2Params,
    EncryptFailed,
    DecryptFailed,
    HkdfFailed,
}

/// A crypto error as a mathematical value: its texts as characters.
pub enum CryptoFault {
    UnsupportedFormat(Seq<char>),
    UnsupportedKdf(Seq<char>),
    UnsupportedArgon2Version(u32),
    UnsupportedCipher(Seq<char>),
    InvalidBase64(Seq<char>),
    InvalidLength(Seq<char>, nat, nat),
    InvalidArgon2Params,
    EncryptFailed,
    DecryptFailed,
    HkdfFailed,
}

impl View for CryptoError {
    type V = CryptoFault;

    open spec fn view(&self) -> CryptoFault {
        match *self {
            CryptoError::UnsupportedFormat(s) => CryptoFault::UnsupportedFormat(s@),
            CryptoError::UnsupportedKdf(s) => CryptoFault::UnsupportedKdf(s@),
            CryptoError::UnsupportedArgon2Version(v) => CryptoFault::UnsupportedArgon2Version(v),
            CryptoError::UnsupportedCipher(s) => CryptoFault::UnsupportedCipher(s@),
            CryptoError::InvalidBase64(f) => CryptoFault::InvalidBase64(f@),
            CryptoError::InvalidLength { field, expected, actual } => CryptoFault::InvalidLength(
                field@,
                expected as nat,
                actual as nat,
            ),
            CryptoError::InvalidArgon2Params => CryptoFault::InvalidArgon2Params,
            CryptoError::EncryptFailed => CryptoFault::EncryptFailed,
            CryptoError::DecryptFailed => CryptoFault::DecryptFailed,
            CryptoError::HkdfFailed => CryptoFault::HkdfFailed,
        }
    }
}

/// The text of a crypto error.
pub open spec fn crypto_message(e: CryptoError) -> Seq<char> {
    match e {
        CryptoError::UnsupportedFormat(s) => "unsupported seed envelope format: "@ + s@,
        CryptoError::UnsupportedKdf(s) => "unsupported KDF: "@ + s@,
        CryptoError::UnsupportedArgon2Version(v) => "unsupported Argon2 version: "@ + decimal(v as nat),
        CryptoError::UnsupportedCipher(s) => "unsupported cipher: "@ + s@,
        CryptoError::InvalidBase64(f) => "invalid base64url field: "@ + f@,
        CryptoError::InvalidLength { field, expected, actual } => "invalid length for "@ + field@
            + ": expected "@ + decimal(expected as nat) + ", got "@ + decimal(actual as nat),
        CryptoError::InvalidArgon2Params => "invalid Argon2 parameters"@,
        CryptoError::EncryptFailed => "seed encryption failed"@,
        CryptoError::DecryptFailed => "seed decryption failed"@,
        CryptoError::HkdfFailed => "HKDF expansion failed"@,
    }
}

impl CryptoError {
    /// The error's text.
    pub fn message(&self) -> (r: String)
        ensures
            r@ == crypto_message(*self),
    {
        let mut out = String::new();
        match self {
            CryptoError::UnsupportedFormat(s) => {
                out.append("unsupported seed envelope format: ");
                out.append(s.as_str());
            },
            CryptoError::UnsupportedKdf(s) => {
                out.append("unsupported KDF: ");
                out.append(s.as_str());
            },
            CryptoError::UnsupportedArgon2Version(v) => {
                out.append("unsupported Argon2 version: ");
                push_decimal(&mut out, *v as u64);
            },
            CryptoError::UnsupportedCipher(s) => {
                out.append("unsupported cipher: ");
                out.append(s.as_str());
            },
            CryptoError::InvalidBase64(f) => {
                out.append("invalid base64url field: ");
                out.append(f);
            },
            CryptoError::InvalidLength { field, expected, actual } => {
                out.append("invalid length for ");
                out.append(field);
                out.append(": expected ");
                push_decimal(&mut out, *expected as u64);
                out.append(", got ");
                push_decimal(&mut out, *actual as u64);
            },
            CryptoError::InvalidArgon2Params => {
                out.append("invalid Argon2 parameters");
            },
            CryptoError::EncryptFailed => {
                out.append("seed encryption failed");
            },
            CryptoError::DecryptFailed => {
                out.append("seed decryption failed");
            },
            CryptoError::HkdfFailed => {
                out.append("HKDF expansion failed");
            },
        }
        out
    }
}

/// Argon2id parameters of an envelope; the salt is base64url without padding.
#[derive(Debug, PartialEq, Eq)]
pub struct KdfParams {
    pub name: String,
    pub version: u32,
    pub memory_kib: u32,
    pub iterations: u32,
    pub parallelism: u32,
    pub salt: String,
}

impl Clone for KdfParams {
    fn clone(&self) -> (r: Self)
        ensures
            r == *self,
    {
        KdfParams {
            name: self.name.clone(),
            version: self.version,
            memory_kib: self.memory_kib,
            iterations: self.iterations,
            parallelism: self.parallelism,
            salt: self.salt.clone(),
        }
    }
}

/// Cipher parameters of an envelope; the nonce is base64url without padding.
#[derive(Debug, PartialEq, Eq)]
pub struct CipherParams {
    pub name: String,
    pub nonce: String,
}

impl Clone for CipherParams {
    fn clone(&self) -> (r: Self)
        ensures
            r == *self,
    {
        CipherParams { name: self.name.clone(), nonce: self.nonce.clone() }
    }
}

/// An encrypted root seed with the header that authenticates it.
#[derive(Debug, PartialEq, Eq)]
pub struct SeedEnvelopeV1 {
    pub format: String,
    pub kdf: KdfParams,
    pub cipher: CipherParams,
    pub ciphertext: String,
}

impl Clone for SeedEnvelopeV1 {
    fn clone(&self) -> (r: Self)
        ensures
            r == *self,
    {
        SeedEnvelopeV1 {
            format: self.format.clone(),
            kdf: self.kdf.clone(),
            cipher: self.cipher.clone(),
            ciphertext: self.ciphertext.clone(),
        }
    }
}

/// A root seed: the secret input of every derivation.
pub struct RootSeed([u8; 32]);

impl View for RootSeed {
    type V = Seq<u8>;

    closed spec fn view(&self) -> Seq<u8> {
        self.0@
    }
}

impl Clone for RootSeed {
    fn clone(&self) -> (r: Self)
        ensures
            r@ == self@,
    {
        RootSeed(self.0)
    }
}

impl RootSeed {
    pub fn new(bytes: [u8; 32]) -> (r: Self)
        ensures
            r@ == bytes@,
    {
        RootSeed(bytes)
    }

    /// A fresh random seed.
    pub fn generate() -> (r: Self)
        ensures
            r@.len() == ROOT_SEED_LEN,
    {
        RootSeed(random_32())
    }

    pub fn as_bytes(&self) -> (r: &[u8; 32])
        ensures
            r@ == self@,
            self@.len() == ROOT_SEED_LEN,
    {
        &self.0
    }
}

// ---------------------------------------------------------------------------
// Header checks

/// What decoding a fixed-length field gives: `None` when it is base64url for
/// exactly `len` bytes, else the error that names `field`.
pub open spec fn fixed_fault(value: Seq<char>, field: Seq<char>, len: nat) -> Option<CryptoFault> {
    match base64url_decode(value) {
        None => Some(CryptoFault::InvalidBase64(field)),
        Some(b) => if b.len() != len {
            Some(CryptoFault::InvalidLength(field, len, b.len()))
        } else {
            None
        },
    }
}

/// Some Argon2 cost parameter is above the accepted maximum.
pub open spec fn exceeds_argon2_max(kdf: KdfParams) -> bool {
    ||| kdf.memory_kib > ARGON2_MAX_MEMORY_KIB
    ||| kdf.iterations > ARGON2_MAX_ITERATIONS
    ||| kdf.parallelism > ARGON2_MAX_PARALLELISM
}

/// The first thing wrong with an envelope header, checked in this order: format,
/// KDF name, Argon2 version, cipher name, nonce (base64url, 12 bytes), salt
/// (base64url, 16 to 64 bytes), Argon2 cost maxima. `None` when nothing is.
pub open spec fn header_fault(format: Seq<char>, kdf: KdfParams, cipher: CipherParams) -> Option<CryptoFault> {
    if format != SEED_ENVELOPE_FORMAT_V1@ {
        Some(CryptoFault::UnsupportedFormat(format))
    } else if kdf.name@ != KDF_NAME_ARGON2ID@ {
        Some(CryptoFault::UnsupportedKdf(kdf.name@))
    } else if kdf.version != ARGON2_VERSION {
        Some(CryptoFault::UnsupportedArgon2Version(kdf.version))
    } else if cipher.name@ != CIPHER_NAME_AES256GCM@ {
        Some(CryptoFault::UnsupportedCipher(cipher.name@))
    } else if fixed_fault(cipher.nonce@, "cipher.nonce"@, AES_GCM_NONCE_LEN as nat) is Some {
        fixed_fault(cipher.nonce@, "cipher.nonce"@, AES_GCM_NONCE_LEN as nat)
    } else {
        match base64url_decode(kdf.salt@) {
            None => Some(CryptoFault::InvalidBase64("kdf.salt"@)),
            Some(salt) => if salt.len() < 16 {
                Some(CryptoFault::InvalidLength("kdf.salt"@, 16, salt.len()))
            } else if salt.len() > ARGON2_MAX_SALT_LEN {
                Some(CryptoFault::InvalidLength("kdf.salt"@, ARGON2_MAX_SALT_LEN as nat, salt.len()))
            } else if exceeds_argon2_max(kdf) {
                Some(CryptoFault::InvalidArgon2Params)
            } else {
                None
            },
        }
    }
}

/// The nonce bytes of valid cipher parameters.
pub open spec fn nonce_bytes(cipher: CipherParams) -> Seq<u8> {
    match base64url_decode(cipher.nonce@) {
        Some(b) => b,
        None => Seq::empty(),
    }
}

/// Decodes a base64url field that must hold exactly 12 bytes.
fn decode_fixed(value: &str, field: &'static str) -> (r: Result<[u8; 12], CryptoError>)
    ensures
        match r {
            Ok(a) => fixed_fault(value@, field@, 12) is None && base64url_decode(value@) == Some(a@),
            Err(e) => fixed_fault(value@, field@, 12) == Some(e@),
        },
{
    let decoded = match b64url_decode(value) {
        Some(d) => d,
        None => return Err(CryptoError::InvalidBase64(field)),
    };
    if decoded.len() != 12 {
        return Err(CryptoError::InvalidLength { field, expected: 12, actual: decoded.len() });
    }
    let mut out = [0u8; 12];
    for i in 0..12
        invariant
            decoded@.len() == 12,
            out@.len() == 12,
            forall|j: int| 0 <= j < i ==> out@[j] == decoded@[j],
    {
        out[i] = decoded[i];
    }
    assert(out@ =~= decoded@);
    Ok(out)
}

/// Checks an envelope header before any key is derived.
fn validate_header(format: &str, kdf: &KdfParams, cipher: &CipherParams) -> (r: Result<(), CryptoError>)
    ensures
        match r {
            Ok(()) => header_fault(format@, *kdf, *cipher) is None,
            Err(e) => header_fault(format@, *kdf, *cipher) == Some(e@),
        },
{
    if !same_text(format, SEED_ENVELOPE_FORMAT_V1) {
        return Err(CryptoError::UnsupportedFormat(format.to_owned()));
    }
    if !same_text(kdf.name.as_str(), KDF_NAME_ARGON2ID) {
        return Err(CryptoError::UnsupportedKdf(kdf.name.clone()));
    }
    if kdf.version != ARGON2_VERSION {
        return Err(CryptoError::UnsupportedArgon2Version(kdf.version));
    }
    if !same_text(cipher.name.as_str(), CIPHER_NAME_AES256GCM) {
        return Err(CryptoError::UnsupportedCipher(cipher.name.clone()));
    }
    decode_fixed(cipher.nonce.as_str(), "cipher.nonce")?;
    let salt = match b64url_decode(kdf.salt.as_str()) {
        Some(s) => s,
        None => return Err(CryptoError::InvalidBase64("kdf.salt")),
    };
    if salt.len() < 16 {
        return Err(CryptoError::InvalidLength { field: "kdf.salt", expected: 16, actual: salt.len() });
    }
    if salt.len() > ARGON2_MAX_SALT_LEN {
        return Err(
            CryptoError::InvalidLength {
                field: "kdf.salt",
                expected: ARGON2_MAX_SALT_LEN,
                actual: salt.len(),
            },
        );
    }
    if kdf.memory_kib > ARGON2_MAX_MEMORY_KIB || kdf.iterations > ARGON2_MAX_ITERATIONS
        || kdf.parallelism > ARGON2_MAX_PARALLELISM {
        return Err(CryptoError::InvalidArgon2Params);
    }
    Ok(())
}

// ---------------------------------------------------------------------------
// Associated data

/// The first header string that is not ASCII, named by its field.
pub open spec fn aad_fault(format: Seq<char>, kdf: KdfParams, cipher: CipherParams) -> Option<CryptoFault> {
    if !ascii_text(format) {
        Some(CryptoFault::InvalidBase64("format"@))
    } else if !ascii_text(kdf.name@) {
        Some(CryptoFault::InvalidBase64("kdf.name"@))
    } else if !ascii_text(kdf.salt@) {
        Some(CryptoFault::InvalidBase64("kdf.salt"@))
    } else if !ascii_text(cipher.name@) {
        Some(CryptoFault::InvalidBase64("cipher.name"@))
    } else if !ascii_text(cipher.nonce@) {
        Some(CryptoFault::InvalidBase64("cipher.nonce"@))
    } else {
        None
    }
}

/// The protected header as compact JSON with keys in lexicographic order; the
/// strings are written as they are.
pub open spec fn aad_text(format: Seq<char>, kdf: KdfParams, cipher: CipherParams) -> Seq<char> {
    "{\"cipher\":{\"name\":\""@ + cipher.name@ + "\",\"nonce\":\""@ + cipher.nonce@
        + "\"},\"format\":\""@ + format + "\",\"kdf\":{\"iterations\":"@ + decimal(
        kdf.iterations as nat,
    ) + ",\"memory_kib\":"@ + decimal(kdf.memory_kib as nat) + ",\"name\":\""@ + kdf.name@
        + "\",\"parallelism\":"@ + decimal(kdf.parallelism as nat) + ",\"salt\":\""@ + kdf.salt@
        + "\",\"version\":"@ + decimal(kdf.version as nat) + "}}"@
}

/// The associated data names every header field by its own key: after
/// `"iterations":` stands the decimal of the KDF's iterations, after
/// `"memory_kib":` its memory, after `"parallelism":` its parallelism and after
/// `"version":` its version, each ended by `,` or `}`; after `"salt":"`,
/// `"nonce":"` and `"format":"` stand the salt, the nonce and the format, each
/// closed by a quote.
pub proof fn law_aad_fields_follow_their_keys(format: Seq<char>, kdf: KdfParams, cipher: CipherParams)
    ensures
        follows_key(aad_text(format, kdf, cipher), "\"iterations\":"@, decimal(kdf.iterations as nat), ','),
        follows_key(aad_text(format, kdf, cipher), "\"memory_kib\":"@, decimal(kdf.memory_kib as nat), ','),
        follows_key(aad_text(format, kdf, cipher), "\"parallelism\":"@, decimal(kdf.parallelism as nat), ','),
        follows_key(aad_text(format, kdf, cipher), "\"version\":"@, decimal(kdf.version as nat), '}'),
        follows_key(aad_text(format, kdf, cipher), "\"salt\":\""@, kdf.salt@, '"'),
        follows_key(aad_text(format, kdf, cipher), "\"nonce\":\""@, cipher.nonce@, '"'),
        follows_key(aad_text(format, kdf, cipher), "\"format\":\""@, format, '"'),
{
    let p1 = "{\"cipher\":{\"name\":\""@;
    let p2 = "\",\"nonce\":\""@;
    let p3 = "\"},\"format\":\""@;
    let p4 = "\",\"kdf\":{\"iterations\":"@;
    let p5 = ",\"memory_kib\":"@;
    let p6 = ",\"name\":\""@;
    let p7 = "\",\"parallelism\":"@;
    let p8 = ",\"salt\":\""@;
    let p9 = "\",\"version\":"@;
    let p10 = "}}"@;
    let d_it = decimal(kdf.iterations as nat);
    let d_mem = decimal(kdf.memory_kib as nat);
    let d_par = decimal(kdf.parallelism as nat);
    let d_ver = decimal(kdf.version as nat);
    let t = aad_text(format, kdf, cipher);
    let c1 = p1 + cipher.name@;
    let c2 = c1 + p2;
    let c3 = c2 + cipher.nonce@;
    let c4 = c3 + p3;
    let c5 = c4 + format;
    let c6 = c5 + p4;
    let c7 = c6 + d_it;
    let c8 = c7 + p5;
    let c9 = c8 + d_mem;
    let c10 = c9 + p6;
    let c11 = c10 + kdf.name@;
    let c12 = c11 + p7;
    let c13 = c12 + d_par;
    let c14 = c13 + p8;
    let c15 = c14 + kdf.salt@;
    let c16 = c15 + p9;
    let c17 = c16 + d_ver;
    assert(t == c17 + p10);
    let r17 = p10;
    let r16 = d_ver + r17;
    let r15 = p9 + r16;
    let r14 = kdf.salt@ + r15;
    let r13 = p8 + r14;
    let r12 = d_par + r13;
    let r11 = p7 + r12;
    let r10 = kdf.name@ + r11;
    let r9 = p6 + r10;
    let r8 = d_mem + r9;
    let r7 = p5 + r8;
    let r6 = d_it + r7;
    let r5 = p4 + r6;
    let r4 = format + r5;
    let r3 = p3 + r4;
    let r2 = cipher.nonce@ + r3;
    let r1 = p2 + r2;
    crate::codec::lemma_assoc(c16, d_ver, r17);
    crate::codec::lemma_assoc(c15, p9, r16);
    crate::codec::lemma_assoc(c14, kdf.salt@, r15);
    crate::codec::lemma_assoc(c13, p8, r14);
    crate::codec::lemma_assoc(c12, d_par, r13);
    crate::codec::lemma_assoc(c11, p7, r12);
    crate::codec::lemma_assoc(c10, kdf.name@, r11);
    crate::codec::lemma_assoc(c9, p6, r10);
    crate::codec::lemma_assoc(c8, d_mem, r9);
    crate::codec::lemma_assoc(c7, p5, r8);
    crate::codec::lemma_assoc(c6, d_it, r7);
    crate::codec::lemma_assoc(c5, p4, r6);
    crate::codec::lemma_assoc(c4, format, r5);
    crate::codec::lemma_assoc(c3, p3, r4);
    crate::codec::lemma_assoc(c2, cipher.nonce@, r3);
    crate::codec::lemma_assoc(c1, p2, r2);
    assert(t == c16 + r16);
    assert(t == c12 + r12);
    assert(t == c8 + r8);
    assert(t == c5 + r5);
    assert(t == c4 + r4);
    assert(t == c2 + r2);
    assert(t == c1 + r1);
    reveal_strlit("{\"cipher\":{\"name\":\"");
    reveal_strlit("\",\"nonce\":\"");
    reveal_strlit("\"},\"format\":\"");
    reveal_strlit("\",\"kdf\":{\"iterations\":");
    reveal_strlit(",\"memory_kib\":");
    reveal_strlit(",\"name\":\"");
    reveal_strlit("\",\"parallelism\":");
    reveal_strlit(",\"salt\":\"");
    reveal_strlit("\",\"version\":");
    reveal_strlit("}}");
    reveal_strlit("\"iterations\":");
    reveal_strlit("\"memory_kib\":");
    reveal_strlit("\"parallelism\":");
    reveal_strlit("\"version\":");
    reveal_strlit("\"salt\":\"");
    reveal_strlit("\"nonce\":\"");
    reveal_strlit("\"format\":\"");
    // iterations: t == c5 + (p4 + (d_it + r7))
    let k = "\"iterations\":"@;
    let q = "\",\"kdf\":{"@;
    reveal_strlit("\",\"kdf\":{");
    assert(p4 =~= q + k);
    crate::codec::lemma_assoc(q, k, r6);
    crate::codec::lemma_assoc(c5, q, k + r6);
    assert(t == (c5 + q) + (k + (d_it + r7)));
    assert(r7[0] == ',');
    // memory: t == c7 + (p5 + (d_mem + r9))
    let k = "\"memory_kib\":"@;
    assert(p5 =~= seq![','] + k);
    crate::codec::lemma_assoc(c7, p5, r8);
    crate::codec::lemma_assoc(seq![','], k, r8);
    crate::codec::lemma_assoc(c7, seq![','], k + r8);
    assert(t == (c7 + seq![',']) + (k + (d_mem + r9)));
    assert(r9[0] == ',');
    // parallelism: t == c11 + (p7 + (d_par + r13))
    let k = "\"parallelism\":"@;
    assert(p7 =~= seq!['"', ','] + k);
    crate::codec::lemma_assoc(seq!['"', ','], k, r12);
    crate::codec::lemma_assoc(c11, seq!['"', ','], k + r12);
    assert(t == (c11 + seq!['"', ','])  + (k + (d_par + r13)));
    assert(r13[0] == ',');
    // version: t == c15 + (p9 + (d_ver + p10))
    let k = "\"version\":"@;
    assert(p9 =~= seq!['"', ','] + k);
    crate::codec::lemma_assoc(seq!['"', ','], k, r16);
    crate::codec::lemma_assoc(c15, seq!['"', ','], k + r16);
    assert(t == (c15 + seq!['"', ',']) + (k + (d_ver + r17)));
    assert(r17[0] == '}');
    // salt: t == c13 + (p8 + (salt + r15))
    let k = "\"salt\":\""@;
    assert(p8 =~= seq![','] + k);
    crate::codec::lemma_assoc(seq![','], k, r14);
    crate::codec::lemma_assoc(c13, seq![','], k + r14);
    assert(t == (c13 + seq![',']) + (k + (kdf.salt@ + r15)));
    assert(r15[0] == '"');
    // nonce: t == c1 + (p2 + (nonce + r3))
    let k = "\"nonce\":\""@;
    assert(p2 =~= seq!['"', ','] + k);
    crate::codec::lemma_assoc(seq!['"', ','], k, r2);
    crate::codec::lemma_assoc(c1, seq!['"', ','], k + r2);
    assert(t == (c1 + seq!['"', ',']) + (k + (cipher.nonce@ + r3)));
    assert(r3[0] == '"');
    // format: t == c3 + (p3 + (format + r5))
    let k = "\"format\":\""@;
    assert(p3 =~= seq!['"', '}', ','] + k);
    crate::codec::lemma_assoc(c3, p3, r4);
    crate::codec::lemma_assoc(seq!['"', '}', ','], k, r4);
    crate::codec::lemma_assoc(c3, seq!['"', '}', ','], k + r4);
    assert(t == (c3 + seq!['"', '}', ','])  + (k + (format + r5)));
    assert(r5[0] == '"');
}

/// The associated data bytes of a header, or the error for a non-ASCII string.
pub open spec fn aad_result(format: Seq<char>, kdf: KdfParams, cipher: CipherParams) -> Result<Seq<u8>, CryptoFault> {
    match aad_fault(format, kdf, cipher) {
        Some(f) => Err(f),
        None => Ok(encode_utf8(aad_text(format, kdf, cipher))),
    }
}

fn validate_ascii(value: &str, field: &'static str) -> (r: Result<(), CryptoError>)
    ensures
        r is Ok <==> ascii_text(value@),
        r matches Err(e) ==> e@ == CryptoFault::InvalidBase64(field@),
{
    if value.is_ascii() {
        Ok(())
    } else {
        Err(CryptoError::InvalidBase64(field))
    }
}

/// The bytes that AES-GCM authenticates alongside the seed.
fn protected_header_aad(format: &str, kdf: &KdfParams, cipher: &CipherParams) -> (r: Result<Vec<u8>, CryptoError>)
    ensures
        match (r, aad_result(format@, *kdf, *cipher)) {
            (Ok(b), Ok(s)) => b@ == s,
            (Err(e), Err(f)) => e@ == f,
            _ => false,
        },
{
    validate_ascii(format, "format")?;
    validate_ascii(kdf.name.as_str(), "kdf.name")?;
    validate_ascii(kdf.salt.as_str(), "kdf.salt")?;
    validate_ascii(cipher.name.as_str(), "cipher.name")?;
    validate_ascii(cipher.nonce.as_str(), "cipher.nonce")?;
    let mut out = String::new();
    out.append("{\"cipher\":{\"name\":\"");
    out.append(cipher.name.as_str());
    out.append("\",\"nonce\":\"");
    out.append(cipher.nonce.as_str());
    out.append("\"},\"format\":\"");
    out.append(format);
    out.append("\",\"kdf\":{\"iterations\":");
    push_decimal(&mut out, kdf.iterations as u64);
    out.append(",\"memory_kib\":");
    push_decimal(&mut out, kdf.memory_kib as u64);
    out.append(",\"name\":\"");
    out.append(kdf.name.as_str());
    out.append("\",\"parallelism\":");
    push_decimal(&mut out, kdf.parallelism as u64);
    out.append(",\"salt\":\"");
    out.append(kdf.salt.as_str());
    out.append("\",\"version\":");
    push_decimal(&mut out, kdf.version as u64);
    out.append("}}");
    assert(out@ =~= aad_text(format@, *kdf, *cipher));
    Ok(out.as_str().as_bytes_vec())
}

impl SeedEnvelopeV1 {
    /// The associated data of this envelope's header.
    pub fn protected_header_aad(&self) -> (r: Result<Vec<u8>, CryptoError>)
        ensures
            match (r, aad_result(self.format@, self.kdf, self.cipher)) {
                (Ok(b), Ok(s)) => b@ == s,
                (Err(e), Err(f)) => e@ == f,
                _ => false,
            },
    {
        protected_header_aad(self.format.as_str(), &self.kdf, &self.cipher)
    }
}

// ---------------------------------------------------------------------------
// Key derivation, encryption and decryption

/// The Argon2id key of a master password under the KDF parameters, or the error:
/// the salt must be base64url, and the argon2 crate must accept the inputs.
pub open spec fn argon2_key(password: Seq<u8>, kdf: KdfParams) -> Result<Seq<u8>, CryptoFault> {
    match base64url_decode(kdf.salt@) {
        None => Err(CryptoFault::InvalidBase64("kdf.salt"@)),
        Some(salt) => if argon2_accepts(
            password.len(),
            salt.len(),
            kdf.memory_kib,
            kdf.iterations,
            kdf.parallelism,
        ) {
            Ok(argon2id_spec(password, salt, kdf.memory_kib, kdf.iterations, kdf.parallelism))
        } else {
            Err(CryptoFault::InvalidArgon2Params)
        },
    }
}

fn derive_argon2_key(master_password: &[u8], kdf: &KdfParams) -> (r: Result<[u8; 32], CryptoError>)
    requires
        kdf.parallelism <= ARGON2_MAX_PARALLELISM,
        kdf.memory_kib <= ARGON2_MAX_MEMORY_KIB,
    ensures
        match (r, argon2_key(master_password@, *kdf)) {
            (Ok(k), Ok(s)) => k@ == s,
            (Err(e), Err(f)) => e@ == f,
            _ => false,
        },
{
    let salt = match b64url_decode(kdf.salt.as_str()) {
        Some(s) => s,
        None => return Err(CryptoError::InvalidBase64("kdf.salt")),
    };
    match argon2id_hash(master_password, salt.as_slice(), kdf.memory_kib, kdf.iterations, kdf.parallelism) {
        Some(key) => Ok(key),
        None => Err(CryptoError::InvalidArgon2Params),
    }
}

/// AES-GCM accepts associated data of at most 2^36 bytes.
pub open spec fn aad_too_long(aad: Seq<u8>) -> bool {
    aad.len() > 0x10_0000_0000
}

/// The ciphertext text (base64url) that encrypting `seed` under a master password
/// and parameters gives, or the error: the header is checked, the key derived, the
/// associated data built, then the seed encrypted.
pub open spec fn encrypt_outcome(seed: Seq<u8>, password: Seq<u8>, kdf: KdfParams, cipher: CipherParams) -> Result<Seq<char>, CryptoFault> {
    match header_fault(SEED_ENVELOPE_FORMAT_V1@, kdf, cipher) {
        Some(f) => Err(f),
        None => match argon2_key(password, kdf) {
            Err(f) => Err(f),
            Ok(key) => match aad_result(SEED_ENVELOPE_FORMAT_V1@, kdf, cipher) {
                Err(f) => Err(f),
                Ok(aad) => if aad_too_long(aad) {
                    Err(CryptoFault::EncryptFailed)
                } else {
                    Ok(
                        crate::primitives::base64url_encode(
                            aes256gcm_encrypt_spec(key, nonce_bytes(cipher), seed, aad),
                        ),
                    )
                },
            },
        },
    }
}

/// The root seed bytes that decrypting an envelope under a master password gives,
/// or the error: the header is checked, the key derived, the associated data built,
/// the ciphertext decoded (at most 1024 bytes), authenticated and decrypted, and
/// the plaintext must be 32 bytes.
pub open spec fn decrypt_outcome(envelope: SeedEnvelopeV1, password: Seq<u8>) -> Result<Seq<u8>, CryptoFault> {
    match header_fault(envelope.format@, envelope.kdf, envelope.cipher) {
        Some(f) => Err(f),
        None => match argon2_key(password, envelope.kdf) {
            Err(f) => Err(f),
            Ok(key) => match aad_result(envelope.format@, envelope.kdf, envelope.cipher) {
                Err(f) => Err(f),
                Ok(aad) => match base64url_decode(envelope.ciphertext@) {
                    None => Err(CryptoFault::InvalidBase64("ciphertext"@)),
                    Some(ct) => if ct.len() > SEED_ENVELOPE_MAX_CIPHERTEXT_LEN {
                        Err(
                            CryptoFault::InvalidLength(
                                "ciphertext"@,
                                SEED_ENVELOPE_MAX_CIPHERTEXT_LEN as nat,
                                ct.len(),
                            ),
                        )
                    } else {
                        match aes256gcm_decrypt_spec(key, nonce_bytes(envelope.cipher), ct, aad) {
                            None => Err(CryptoFault::DecryptFailed),
                            Some(pt) => if pt.len() != ROOT_SEED_LEN {
                                Err(
                                    CryptoFault::InvalidLength(
                                        "root_seed"@,
                                        ROOT_SEED_LEN as nat,
                                        pt.len(),
                                    ),
                                )
                            } else {
                                Ok(pt)
                            },
                        }
                    },
                },
            },
        },
    }
}

/// Encrypts a root seed under a master password with the given Argon2id and
/// AES-256-GCM parameters. The envelope decrypts back to the seed under the same
/// master password.
pub fn encrypt_seed_with_params(
    root_seed: &RootSeed,
    master_password: &[u8],
    kdf: KdfParams,
    cipher: CipherParams,
) -> (r: Result<SeedEnvelopeV1, CryptoError>)
    ensures
        match (r, encrypt_outcome(root_seed@, master_password@, kdf, cipher)) {
            (Ok(env), Ok(text)) => {
                &&& env.format@ == SEED_ENVELOPE_FORMAT_V1@
                &&& env.kdf == kdf
                &&& env.cipher == cipher
                &&& env.ciphertext@ == text
            },
            (Err(e), Err(f)) => e@ == f,
            _ => false,
        },
        r matches Ok(env) ==> decrypt_outcome(env, master_password@) == Ok::<Seq<u8>, CryptoFault>(root_seed@),
{
    validate_header(SEED_ENVELOPE_FORMAT_V1, &kdf, &cipher)?;
    let key = derive_argon2_key(master_password, &kdf)?;
    let nonce = decode_fixed(cipher.nonce.as_str(), "cipher.nonce")?;
    let aad = protected_header_aad(SEED_ENVELOPE_FORMAT_V1, &kdf, &cipher)?;
    let seed_bytes = root_seed.as_bytes();
    let ct = match aes256gcm_encrypt(&key, &nonce, seed_bytes.as_slice(), aad.as_slice()) {
        Some(ct) => ct,
        None => return Err(CryptoError::EncryptFailed),
    };
    let text = b64url_encode(ct.as_slice());
    let env = SeedEnvelopeV1 {
        format: SEED_ENVELOPE_FORMAT_V1.to_owned(),
        kdf,
        cipher,
        ciphertext: text,
    };
    Ok(env)
}

/// Decrypts an envelope under a master password.
pub fn decrypt_seed(envelope: &SeedEnvelopeV1, master_password: &[u8]) -> (r: Result<RootSeed, CryptoError>)
    ensures
        match (r, decrypt_outcome(*envelope, master_password@)) {
            (Ok(seed), Ok(bytes)) => seed@ == bytes,
            (Err(e), Err(f)) => e@ == f,
            _ => false,
        },
{
    validate_header(envelope.format.as_str(), &envelope.kdf, &envelope.cipher)?;
    let key = derive_argon2_key(master_password, &envelope.kdf)?;
    let nonce = decode_fixed(envelope.cipher.nonce.as_str(), "cipher.nonce")?;
    let aad = envelope.protected_header_aad()?;
    let ct = match b64url_decode(envelope.ciphertext.as_str()) {
        Some(ct) => ct,
        None => return Err(CryptoError::InvalidBase64("ciphertext")),
    };
    if ct.len() > SEED_ENVELOPE_MAX_CIPHERTEXT_LEN {
        return Err(
            CryptoError::InvalidLength {
                field: "ciphertext",
                expected: SEED_ENVELOPE_MAX_CIPHERTEXT_LEN,
                actual: ct.len(),
            },
        );
    }
    let pt = match aes256gcm_decrypt(&key, &nonce, ct.as_slice(), aad.as_slice()) {
        Some(pt) => pt,
        None => return Err(CryptoError::DecryptFailed),
    };
    if pt.len() != ROOT_SEED_LEN {
        return Err(
            CryptoError::InvalidLength { field: "root_seed", expected: ROOT_SEED_LEN, actual: pt.len() },
        );
    }
    let mut seed_bytes = [0u8; 32];
    for i in 0..32
        invariant
            pt@.len() == 32,
            seed_bytes@.len() == 32,
            forall|j: int| 0 <= j < i ==> seed_bytes@[j] == pt@[j],
    {
        seed_bytes[i] = pt[i];
    }
    assert(seed_bytes@ =~= pt@);
    Ok(RootSeed::new(seed_bytes))
}

/// Decrypts an envelope with the old master password and encrypts the same seed
/// under the new one with new parameters.
pub fn rewrap_seed_with_params(
    envelope: &SeedEnvelopeV1,
    old_master_password: &[u8],
    new_master_password: &[u8],
    new_kdf: KdfParams,
    new_cipher: CipherParams,
) -> (r: Result<SeedEnvelopeV1, CryptoError>)
    ensures
        match decrypt_outcome(*envelope, old_master_password@) {
            Err(f) => r matches Err(e) && e@ == f,
            Ok(seed) => match (r, encrypt_outcome(seed, new_master_password@, new_kdf, new_cipher)) {
                (Ok(env), Ok(text)) => {
                    &&& env.format@ == SEED_ENVELOPE_FORMAT_V1@
                    &&& env.kdf == new_kdf
                    &&& env.cipher == new_cipher
                    &&& env.ciphertext@ == text
                },
                (Err(e), Err(f)) => e@ == f,
                _ => false,
            },
        },
        r matches Ok(env) ==> decrypt_outcome(env, new_master_password@) == decrypt_outcome(
            *envelope,
            old_master_password@,
        ),
{
    let root_seed = decrypt_seed(envelope, old_master_password)?;
    encrypt_seed_with_params(&root_seed, new_master_password, new_kdf, new_cipher)
}

// ---------------------------------------------------------------------------
// Fingerprints

/// The 16 raw fingerprint bytes of a seed: HKDF-SHA-256 with an empty salt and the
/// fingerprint info string.
pub open spec fn fingerprint_raw_spec(seed: Seq<u8>) -> Seq<u8> {
    crate::primitives::hkdf_sha256_spec(
        Seq::empty(),
        seed,
        encode_utf8(SEED_FINGERPRINT_INFO_V1@),
        SEED_FINGERPRINT_LEN as nat,
    )
}

/// `s[k..]` cut into groups of four characters joined by `-`.
pub open spec fn group_from(s: Seq<char>, k: int) -> Seq<char>
    decreases s.len() - k,
{
    if s.len() - k <= 4 {
        s.subrange(k, s.len() as int)
    } else {
        s.subrange(k, k + 4) + seq!['-'] + group_from(s, k + 4)
    }
}

/// The display fingerprint of a seed: `SPSEED-` and the base32 of the raw
/// fingerprint in dash-separated groups of four.
pub open spec fn fingerprint_text(seed: Seq<u8>) -> Seq<char> {
    "SPSEED-"@ + group_from(crate::primitives::base32_nopad_spec(fingerprint_raw_spec(seed)), 0)
}

/// Character `j` of `s[k..]` in groups of four: every fifth one is a `-`, the
/// others are the characters of `s[k..]` in order.
pub proof fn lemma_group_from(s: Seq<char>, k: int)
    requires
        0 <= k < s.len(),
    ensures
        group_from(s, k).len() == (s.len() - k) + (s.len() - k - 1) / 4,
        forall|j: int|
            0 <= j < group_from(s, k).len() ==> #[trigger] group_from(s, k)[j] == if j % 5 == 4 {
                '-'
            } else {
                s[k + j - j / 5]
            },
    decreases s.len() - k,
{
    if s.len() - k > 4 {
        lemma_group_from(s, k + 4);
        let g = group_from(s, k);
        let rest = group_from(s, k + 4);
        assert forall|j: int| 0 <= j < g.len() implies #[trigger] g[j] == if j % 5 == 4 {
            '-'
        } else {
            s[k + j - j / 5]
        } by {
            if j >= 5 {
                assert(g[j] == rest[j - 5]);
                assert((j - 5) % 5 == j % 5 && (j - 5) / 5 == j / 5 - 1);
            }
        }
    }
}

/// The display fingerprint is `SPSEED-` and 26 base32 symbols in groups of four
/// (the last of two) joined by `-`: 39 characters.
pub open spec fn fingerprint_shape(d: Seq<char>) -> bool {
    &&& d.len() == 39
    &&& d.take(7) == "SPSEED-"@
    &&& forall|j: int|
        7 <= j < 39 ==> if (j - 7) % 5 == 4 {
            #[trigger] d[j] == '-'
        } else {
            crate::primitives::is_base32_symbol(d[j])
        }
}

/// The raw 16-byte fingerprint of a root seed.
pub fn seed_fingerprint_raw(root_seed: &RootSeed) -> (r: Result<[u8; 16], CryptoError>)
    ensures
        r matches Ok(b) && b@ == fingerprint_raw_spec(root_seed@),
{
    let mut out = [0u8; 16];
    let empty: [u8; 0] = [];
    crate::primitives::hkdf_sha256(
        empty.as_slice(),
        root_seed.as_bytes().as_slice(),
        SEED_FINGERPRINT_INFO_V1.as_bytes(),
        &mut out,
    );
    assert(empty@ =~= Seq::<u8>::empty());
    Ok(out)
}

/// Appends `s` in dash-separated groups of four.
fn push_grouped(out: &mut String, s: &Vec<char>)
    ensures
        final(out)@ == old(out)@ + group_from(s@, 0),
{
    let ghost start = out@;
    let n = s.len();
    let mut k: usize = 0;
    while n - k > 4
        invariant
            k <= n,
            n == s.len(),
            out@ + group_from(s@, k as int) == start + group_from(s@, 0),
        decreases n - k,
    {
        let ghost before = out@;
        crate::text::push_char(out, s[k]);
        crate::text::push_char(out, s[k + 1]);
        crate::text::push_char(out, s[k + 2]);
        crate::text::push_char(out, s[k + 3]);
        crate::text::push_char(out, '-');
        proof {
            let chunk = s@.subrange(k as int, k + 4);
            assert(out@ =~= before + (chunk + seq!['-']));
            assert(group_from(s@, k as int) == chunk + seq!['-'] + group_from(s@, k + 4));
            assert(out@ + group_from(s@, k + 4) =~= before + group_from(s@, k as int));
        }
        k = k + 4;
    }
    let ghost mid = out@;
    for i in k..n
        invariant
            n == s.len(),
            k <= n,
            out@ == mid + s@.subrange(k as int, i as int),
    {
        crate::text::push_char(out, s[i]);
        assert(out@ =~= mid + s@.subrange(k as int, i + 1));
    }
    assert(group_from(s@, k as int) == s@.subrange(k as int, n as int));
}

/// The display fingerprint of a root seed, such as `SPSEED-PSXY-OUAH-...`.
pub fn seed_fingerprint_display(root_seed: &RootSeed) -> (r: Result<String, CryptoError>)
    ensures
        r matches Ok(s) && s@ == fingerprint_text(root_seed@),
        r matches Ok(s) && fingerprint_shape(s@),
{
    let raw = seed_fingerprint_raw(root_seed)?;
    let encoded = crate::primitives::base32_nopad(raw.as_slice());
    let chars = crate::text::chars_of(encoded.as_str());
    let mut out = String::new();
    out.append("SPSEED-");
    push_grouped(&mut out, &chars);
    proof {
        reveal_strlit("SPSEED-");
        let e = encoded@;
        assert(e.len() == 26);
        lemma_group_from(e, 0);
        let g = group_from(e, 0);
        assert(out@ == "SPSEED-"@ + g);
        assert(out@.take(7) =~= "SPSEED-"@);
        assert forall|j: int| 7 <= j < 39 implies if (j - 7) % 5 == 4 {
            #[trigger] out@[j] == '-'
        } else {
            crate::primitives::is_base32_symbol(out@[j])
        } by {
            assert(out@[j] == g[j - 7]);
            if (j - 7) % 5 != 4 {
                assert(0 <= (j - 7) - (j - 7) / 5 < 26);
            }
        }
    }
    Ok(out)
}

/// What checking an envelope's fingerprint gives: whether the display fingerprint
/// of the decrypted seed equals `expected`, or the decryption error.
pub open spec fn verify_outcome(envelope: SeedEnvelopeV1, password: Seq<u8>, expected: Seq<char>) -> Result<bool, CryptoFault> {
    match decrypt_outcome(envelope, password) {
        Ok(seed) => Ok(fingerprint_text(seed) == expected),
        Err(f) => Err(f),
    }
}

/// Decrypts an envelope and compares, in constant time, the seed's display
/// fingerprint with `expected_fingerprint`.
pub fn verify_seed_fingerprint(
    envelope: &SeedEnvelopeV1,
    master_password: &[u8],
    expected_fingerprint: &str,
) -> (r: Result<bool, CryptoError>)
    ensures
        match (r, verify_outcome(*envelope, master_password@, expected_fingerprint@)) {
            (Ok(b), Ok(c)) => b == c,
            (Err(e), Err(f)) => e@ == f,
            _ => false,
        },
{
    let root_seed = decrypt_seed(envelope, master_password)?;
    let actual = seed_fingerprint_display(&root_seed)?;
    let same = crate::primitives::ct_eq_bytes(actual.as_str().as_bytes(), expected_fingerprint.as_bytes());
    proof {
        broadcast use vstd::utf8::encode_utf8_decode_utf8;
        if encode_utf8(actual@) == encode_utf8(expected_fingerprint@) {
            assert(vstd::utf8::decode_utf8(encode_utf8(actual@)) == actual@);
            assert(vstd::utf8::decode_utf8(encode_utf8(expected_fingerprint@)) == expected_fingerprint@);
        }
    }
    Ok(same)
}

// ---------------------------------------------------------------------------
// Parameter advice

/// The warnings for KDF parameters: one when some cost is below the minimums,
/// else one when some cost is below the recommendations, else none.
pub open spec fn kdf_warnings(kdf: KdfParams) -> Seq<Seq<char>> {
    if kdf.memory_kib < ARGON2_MIN_MEMORY_KIB || kdf.iterations < ARGON2_MIN_ITERATIONS
        || kdf.parallelism < ARGON2_MIN_PARALLELISM {
        seq!["seed KDF parameters are below current minimums; rewrap recommended"@]
    } else if kdf.memory_kib < ARGON2_RECOMMENDED_MEMORY_KIB || kdf.iterations
        < ARGON2_RECOMMENDED_ITERATIONS || kdf.parallelism < ARGON2_RECOMMENDED_PARALLELISM {
        seq!["seed KDF parameters are below current recommendations; consider rewrap"@]
    } else {
        Seq::empty()
    }
}

/// Advice on KDF parameters that are weaker than the minimums or recommendations.
pub fn kdf_parameter_warnings(kdf: &KdfParams) -> (r: Vec<String>)
    ensures
        r@.map_values(|w: String| w@) == kdf_warnings(*kdf),
{
    let mut warnings: Vec<String> = Vec::new();
    if kdf.memory_kib < ARGON2_MIN_MEMORY_KIB || kdf.iterations < ARGON2_MIN_ITERATIONS
        || kdf.parallelism < ARGON2_MIN_PARALLELISM {
        warnings.push("seed KDF parameters are below current minimums; rewrap recommended".to_owned());
    } else if kdf.memory_kib < ARGON2_RECOMMENDED_MEMORY_KIB || kdf.iterations
        < ARGON2_RECOMMENDED_ITERATIONS || kdf.parallelism < ARGON2_RECOMMENDED_PARALLELISM {
        warnings.push(
            "seed KDF parameters are below current recommendations; consider rewrap".to_owned(),
        );
    }
    assert(warnings@.map_values(|w: String| w@) =~= kdf_warnings(*kdf));
    warnings
}

/// The length of the associated-data text: its fixed parts and its fields.
proof fn lemma_aad_text_len(format: Seq<char>, kdf: KdfParams, cipher: CipherParams)
    ensures
        aad_text(format, kdf, cipher).len() == 127 + format.len() + cipher.name@.len()
            + cipher.nonce@.len() + kdf.name@.len() + kdf.salt@.len() + decimal(
            kdf.iterations as nat,
        ).len() + decimal(kdf.memory_kib as nat).len() + decimal(kdf.parallelism as nat).len()
            + decimal(kdf.version as nat).len(),
{
    reveal_strlit("{\"cipher\":{\"name\":\"");
    reveal_strlit("\",\"nonce\":\"");
    reveal_strlit("\"},\"format\":\"");
    reveal_strlit("\",\"kdf\":{\"iterations\":");
    reveal_strlit(",\"memory_kib\":");
    reveal_strlit(",\"name\":\"");
    reveal_strlit("\",\"parallelism\":");
    reveal_strlit(",\"salt\":\"");
    reveal_strlit("\",\"version\":");
    reveal_strlit("}}");
}

/// Encrypts a root seed under a master password with a fresh random 16-byte salt
/// and 12-byte nonce and the recommended Argon2id costs (256 MiB, 3 iterations, 4
/// lanes). It fails only for a master password longer than 2^32 - 1 bytes, which
/// Argon2 refuses.
pub fn encrypt_seed(root_seed: &RootSeed, master_password: &[u8]) -> (r: Result<SeedEnvelopeV1, CryptoError>)
    ensures
        r is Ok <==> master_password@.len() <= 0xFFFF_FFFF,
        r matches Err(e) ==> e@ == CryptoFault::InvalidArgon2Params,
        r matches Ok(env) ==> {
            &&& env.format@ == SEED_ENVELOPE_FORMAT_V1@
            &&& env.kdf.name@ == KDF_NAME_ARGON2ID@
            &&& env.kdf.version == ARGON2_VERSION
            &&& env.kdf.memory_kib == 262_144
            &&& env.kdf.iterations == 3
            &&& env.kdf.parallelism == 4
            &&& base64url_decode(env.kdf.salt@) matches Some(salt) && salt.len() == 16
            &&& env.cipher.name@ == CIPHER_NAME_AES256GCM@
            &&& base64url_decode(env.cipher.nonce@) matches Some(nonce) && nonce.len() == 12
            &&& decrypt_outcome(env, master_password@) == Ok::<Seq<u8>, CryptoFault>(root_seed@)
        },
{
    let salt = random_16();
    let nonce = random_12();
    let kdf = KdfParams {
        name: KDF_NAME_ARGON2ID.to_owned(),
        version: ARGON2_VERSION,
        memory_kib: 262_144,
        iterations: 3,
        parallelism: 4,
        salt: b64url_encode(salt.as_slice()),
    };
    let cipher = CipherParams {
        name: CIPHER_NAME_AES256GCM.to_owned(),
        nonce: b64url_encode(nonce.as_slice()),
    };
    proof {
        reveal_strlit("seedpass-seed-v1");
        reveal_strlit("argon2id");
        reveal_strlit("aes-256-gcm");
        assert(ascii_text(kdf.salt@));
        assert(ascii_text(cipher.nonce@));
        assert(header_fault(SEED_ENVELOPE_FORMAT_V1@, kdf, cipher) is None);
        assert(aad_fault(SEED_ENVELOPE_FORMAT_V1@, kdf, cipher) is None);
        let text = aad_text(SEED_ENVELOPE_FORMAT_V1@, kdf, cipher);
        lemma_aad_text_len(SEED_ENVELOPE_FORMAT_V1@, kdf, cipher);
        lemma_decimal_len(3);
        lemma_decimal_len(262_144);
        lemma_decimal_len(4);
        lemma_decimal_len(19);
        lemma_encode_utf8_len(text);
        assert(!aad_too_long(encode_utf8(text)));
    }
    encrypt_seed_with_params(root_seed, master_password, kdf, cipher)
}

// ---------------------------------------------------------------------------
// Laws

/// Rewrapping keeps the fingerprint: an envelope that decrypts to what another
/// envelope decrypts to (as `rewrap_seed_with_params` ensures of its result) passes
/// and fails exactly the same fingerprint checks.
pub proof fn law_rewrap_keeps_fingerprint(
    old_envelope: SeedEnvelopeV1,
    old_password: Seq<u8>,
    new_envelope: SeedEnvelopeV1,
    new_password: Seq<u8>,
    expected: Seq<char>,
)
    requires
        decrypt_outcome(new_envelope, new_password) == decrypt_outcome(old_envelope, old_password),
    ensures
        verify_outcome(new_envelope, new_password, expected) == verify_outcome(
            old_envelope,
            old_password,
            expected,
        ),
{
}

/// Argon2 costs above the maxima are refused before any key is derived: an
/// envelope whose header is otherwise well formed decrypts to
/// `InvalidArgon2Params` under every master password.
pub proof fn law_excessive_costs_rejected(envelope: SeedEnvelopeV1, password: Seq<u8>)
    requires
        envelope.format@ == SEED_ENVELOPE_FORMAT_V1@,
        envelope.kdf.name@ == KDF_NAME_ARGON2ID@,
        envelope.kdf.version == ARGON2_VERSION,
        envelope.cipher.name@ == CIPHER_NAME_AES256GCM@,
        fixed_fault(envelope.cipher.nonce@, "cipher.nonce"@, AES_GCM_NONCE_LEN as nat) is None,
        base64url_decode(envelope.kdf.salt@) matches Some(salt) && 16 <= salt.len()
            <= ARGON2_MAX_SALT_LEN,
        exceeds_argon2_max(envelope.kdf),
    ensures
        decrypt_outcome(envelope, password) == Err::<Seq<u8>, CryptoFault>(
            CryptoFault::InvalidArgon2Params,
        ),
{
}

/// Rewrapping keeps every derived credential: an envelope that decrypts to what
/// another decrypts to yields the same credential key for every recipe.
pub proof fn law_rewrap_keeps_credentials(
    old_envelope: SeedEnvelopeV1,
    old_password: Seq<u8>,
    new_envelope: SeedEnvelopeV1,
    new_password: Seq<u8>,
    recipe: crate::model::DerivationRecipeV1,
)
    requires
        decrypt_outcome(new_envelope, new_password) == decrypt_outcome(old_envelope, old_password),
        decrypt_outcome(old_envelope, old_password) is Ok,
    ensures
        crate::derive::credential_key_result(decrypt_outcome(new_envelope, new_password)->Ok_0, recipe)
            == crate::derive::credential_key_result(decrypt_outcome(old_envelope, old_password)->Ok_0, recipe),
{
}

} // verus!
