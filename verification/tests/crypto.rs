use base64::engine::general_purpose::URL_SAFE_NO_PAD;
use base64::Engine as _;
use seedpass::crypto::{
    decrypt_seed, encrypt_seed_with_params, kdf_parameter_warnings, rewrap_seed_with_params,
    seed_fingerprint_display, seed_fingerprint_raw, verify_seed_fingerprint, CipherParams,
    CryptoError, KdfParams, RootSeed, SeedEnvelopeV1, ARGON2_MAX_MEMORY_KIB, ARGON2_VERSION,
    AES_GCM_NONCE_LEN,
};
use seedpass::maintenance::hex;

fn seed() -> RootSeed {
    let mut bytes = [0_u8; 32];
    for (i, b) in bytes.iter_mut().enumerate() {
        *b = i as u8;
    }
    RootSeed::new(bytes)
}

fn kdf(salt_byte: u8) -> KdfParams {
    KdfParams {
        name: "argon2id".to_owned(),
        version: ARGON2_VERSION,
        memory_kib: 64,
        iterations: 1,
        parallelism: 1,
        salt: URL_SAFE_NO_PAD.encode([salt_byte; 16]),
    }
}

fn cipher(nonce_byte: u8) -> CipherParams {
    CipherParams {
        name: "aes-256-gcm".to_owned(),
        nonce: URL_SAFE_NO_PAD.encode([nonce_byte; AES_GCM_NONCE_LEN]),
    }
}

fn envelope() -> SeedEnvelopeV1 {
    encrypt_seed_with_params(&seed(), b"correct horse", kdf(7), cipher(9)).expect("encrypts")
}

#[test]
fn protected_header_aad_is_compact_sorted_json() {
    let env = envelope();
    let aad = String::from_utf8(env.protected_header_aad().expect("aad")).expect("utf8");
    assert_eq!(
        aad,
        format!(
            "{{\"cipher\":{{\"name\":\"aes-256-gcm\",\"nonce\":\"{}\"}},\"format\":\"seedpass-seed-v1\",\"kdf\":{{\"iterations\":1,\"memory_kib\":64,\"name\":\"argon2id\",\"parallelism\":1,\"salt\":\"{}\",\"version\":19}}}}",
            env.cipher.nonce, env.kdf.salt
        )
    );
}

#[test]
fn envelope_round_trips_the_seed() {
    let env = envelope();
    assert_eq!(env.format, "seedpass-seed-v1");
    assert_eq!(env.kdf, kdf(7));
    assert_eq!(env.cipher, cipher(9));
    let ct = URL_SAFE_NO_PAD.decode(env.ciphertext.as_bytes()).expect("base64url");
    assert_eq!(ct.len(), 48);
    let decrypted = decrypt_seed(&env, b"correct horse").expect("decrypts");
    assert_eq!(decrypted.as_bytes(), seed().as_bytes());
}

#[test]
fn encryption_with_fixed_params_is_deterministic() {
    assert_eq!(envelope(), envelope());
}

#[test]
fn seed_fingerprint_for_fixed_seed() {
    assert_eq!(
        seed_fingerprint_display(&seed()).expect("fingerprint"),
        "SPSEED-PSXY-OUAH-G6VN-YYDC-Y3JE-L337-5Q"
    );
    assert_eq!(
        hex(&seed_fingerprint_raw(&seed()).expect("raw")),
        "7caf87500737aadc6062c6d245ef7fec"
    );
}

#[test]
fn wrong_password_fails() {
    assert!(matches!(
        decrypt_seed(&envelope(), b"wrong password"),
        Err(CryptoError::DecryptFailed)
    ));
}

#[test]
fn tampered_header_fails() {
    let mut env = envelope();
    env.kdf.iterations += 1;
    assert!(decrypt_seed(&env, b"correct horse").is_err());
}

#[test]
fn excessive_argon2_params_are_rejected_before_hashing() {
    let mut env = envelope();
    env.kdf.memory_kib = ARGON2_MAX_MEMORY_KIB + 1;
    assert!(matches!(
        decrypt_seed(&env, b"correct horse"),
        Err(CryptoError::InvalidArgon2Params)
    ));
}

#[test]
fn wrong_seed_fingerprint_is_detected() {
    assert!(!verify_seed_fingerprint(&envelope(), b"correct horse", "SPSEED-AAAA-AAAA-AAAA-AAAA")
        .expect("verify runs"));
    assert!(verify_seed_fingerprint(
        &envelope(),
        b"correct horse",
        "SPSEED-PSXY-OUAH-G6VN-YYDC-Y3JE-L337-5Q"
    )
    .expect("verify runs"));
}

#[test]
fn rewrap_changes_envelope_but_not_fingerprint() {
    let old = envelope();
    let fingerprint = "SPSEED-PSXY-OUAH-G6VN-YYDC-Y3JE-L337-5Q";
    assert!(verify_seed_fingerprint(&old, b"correct horse", fingerprint).expect("verify old"));
    let new_kdf = KdfParams {
        name: "argon2id".to_owned(),
        version: ARGON2_VERSION,
        memory_kib: 8192,
        iterations: 2,
        parallelism: 1,
        salt: URL_SAFE_NO_PAD.encode([99_u8; 16]),
    };
    let new_cipher = CipherParams {
        name: "aes-256-gcm".to_owned(),
        nonce: URL_SAFE_NO_PAD.encode([42_u8; AES_GCM_NONCE_LEN]),
    };
    let rewrapped = rewrap_seed_with_params(
        &old,
        b"correct horse",
        b"new master password",
        new_kdf,
        new_cipher,
    )
    .expect("rewrap");
    assert_ne!(rewrapped, old);
    assert!(verify_seed_fingerprint(&rewrapped, b"new master password", fingerprint)
        .expect("verify new"));
    assert!(decrypt_seed(&rewrapped, b"correct horse").is_err());
}

#[test]
fn header_refusals_name_the_field() {
    let base = envelope();
    let mut env = base.clone();
    env.format = "seedpass-seed-v2".to_owned();
    assert!(matches!(
        decrypt_seed(&env, b"x"),
        Err(CryptoError::UnsupportedFormat(f)) if f == "seedpass-seed-v2"
    ));
    let mut env = base.clone();
    env.kdf.name = "scrypt".to_owned();
    assert!(matches!(decrypt_seed(&env, b"x"), Err(CryptoError::UnsupportedKdf(n)) if n == "scrypt"));
    let mut env = base.clone();
    env.kdf.version = 16;
    assert!(matches!(decrypt_seed(&env, b"x"), Err(CryptoError::UnsupportedArgon2Version(16))));
    let mut env = base.clone();
    env.cipher.name = "chacha".to_owned();
    assert!(matches!(decrypt_seed(&env, b"x"), Err(CryptoError::UnsupportedCipher(_))));
    let mut env = base.clone();
    env.cipher.nonce = "!!".to_owned();
    assert!(matches!(decrypt_seed(&env, b"x"), Err(CryptoError::InvalidBase64("cipher.nonce"))));
    let mut env = base.clone();
    env.cipher.nonce = URL_SAFE_NO_PAD.encode([1_u8; 8]);
    assert!(matches!(
        decrypt_seed(&env, b"x"),
        Err(CryptoError::InvalidLength { field: "cipher.nonce", expected: 12, actual: 8 })
    ));
    let mut env = base.clone();
    env.kdf.salt = URL_SAFE_NO_PAD.encode([1_u8; 8]);
    assert!(matches!(
        decrypt_seed(&env, b"x"),
        Err(CryptoError::InvalidLength { field: "kdf.salt", expected: 16, actual: 8 })
    ));
    let mut env = base.clone();
    env.kdf.salt = URL_SAFE_NO_PAD.encode([1_u8; 65]);
    assert!(matches!(
        decrypt_seed(&env, b"x"),
        Err(CryptoError::InvalidLength { field: "kdf.salt", expected: 64, actual: 65 })
    ));
    let mut env = base.clone();
    env.ciphertext = "%%%".to_owned();
    assert!(matches!(
        decrypt_seed(&env, b"correct horse"),
        Err(CryptoError::InvalidBase64("ciphertext"))
    ));
    let mut env = base;
    env.ciphertext = URL_SAFE_NO_PAD.encode([0_u8; 1025]);
    assert!(matches!(
        decrypt_seed(&env, b"correct horse"),
        Err(CryptoError::InvalidLength { field: "ciphertext", expected: 1024, actual: 1025 })
    ));
}

#[test]
fn kdf_warnings_follow_minimums_then_recommendations() {
    let mut k = kdf(1);
    assert_eq!(
        kdf_parameter_warnings(&k),
        vec!["seed KDF parameters are below current minimums; rewrap recommended".to_owned()]
    );
    k.memory_kib = 19 * 1024;
    k.iterations = 2;
    assert_eq!(
        kdf_parameter_warnings(&k),
        vec!["seed KDF parameters are below current recommendations; consider rewrap".to_owned()]
    );
    k.memory_kib = 262_144;
    k.iterations = 3;
    k.parallelism = 4;
    assert!(kdf_parameter_warnings(&k).is_empty());
}

#[test]
fn crypto_errors_have_messages() {
    assert_eq!(
        CryptoError::InvalidLength { field: "kdf.salt", expected: 16, actual: 8 }.message(),
        "invalid length for kdf.salt: expected 16, got 8"
    );
    assert_eq!(CryptoError::DecryptFailed.message(), "seed decryption failed");
    assert_eq!(
        CryptoError::UnsupportedArgon2Version(16).message(),
        "unsupported Argon2 version: 16"
    );
}

#[test]
fn generated_seeds_differ() {
    assert_ne!(RootSeed::generate().as_bytes(), RootSeed::generate().as_bytes());
}

#[test]
fn display_fingerprint_is_seven_groups_of_base32() {
    let display = seed_fingerprint_display(&RootSeed::generate()).expect("fingerprint");
    assert_eq!(display.len(), 39);
    assert!(display.starts_with("SPSEED-"));
    let groups: Vec<&str> = display["SPSEED-".len()..].split('-').collect();
    assert_eq!(groups.len(), 7);
    for (i, group) in groups.iter().enumerate() {
        assert_eq!(group.len(), if i == 6 { 2 } else { 4 });
        assert!(group.chars().all(|c| c.is_ascii_uppercase() || ('2'..='7').contains(&c)));
    }
}
