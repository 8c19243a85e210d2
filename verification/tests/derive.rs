use seedpass::crypto::RootSeed;
use seedpass::derive::{derive_credential_key, derive_password, recipe_hash, ByteStream, DeriveError};
use seedpass::maintenance::hex;
use seedpass::model::{CredentialUid, DerivationRecipeV1, ProfileSnapshot, PublicSalt, Purpose, Scheme, RECIPE_FORMAT_V1};

fn recipe() -> DerivationRecipeV1 {
    DerivationRecipeV1 {
        format: RECIPE_FORMAT_V1.to_owned(),
        scheme: Scheme::new("seedpass-v1"),
        credential_uid: CredentialUid::new("cred_01HX8K8M9G6TD9CZQK7BW6MQD2"),
        purpose: Purpose::WebPassword,
        version: 1,
        public_salt: PublicSalt::new("EBESExQVFhcYGRobHB0eHw"),
        profile_snapshot: ProfileSnapshot::Password {
            length: 24,
            min_uppercase: 1,
            min_lowercase: 1,
            min_digits: 1,
            min_symbols: 1,
            symbols: "-_.!@#$%^&*".to_owned(),
        },
    }
}

fn root_seed() -> RootSeed {
    let mut bytes = [0_u8; 32];
    for (i, b) in bytes.iter_mut().enumerate() {
        *b = i as u8;
    }
    RootSeed::new(bytes)
}

fn with_profile(profile: ProfileSnapshot) -> DerivationRecipeV1 {
    let mut r = recipe();
    r.profile_snapshot = profile;
    r
}

#[test]
fn recipe_hash_is_sha256_of_canonical_bytes() {
    assert_eq!(
        hex(&recipe_hash(&recipe()).expect("hash")),
        "1b9db81934885a6a86f8c19d15474627d05388488ddf00a9a57fdea3838d4085"
    );
}

#[test]
fn credential_key_is_hkdf_of_seed_and_hash() {
    assert_eq!(
        hex(&derive_credential_key(&root_seed(), &recipe()).expect("key")),
        "2ab5efb1b767248f26ad052ab85278bd03677f9dbf189ae12bdf89077239d745"
    );
}

#[test]
fn password_for_fixed_seed_and_recipe() {
    assert_eq!(
        derive_password(&root_seed(), &recipe()).expect("password"),
        "s#kB-$sXyS7oWlb$I&50#JqC"
    );
}

#[test]
fn no_symbol_profile_is_supported() {
    let recipe = with_profile(ProfileSnapshot::Password {
        length: 16,
        min_uppercase: 1,
        min_lowercase: 1,
        min_digits: 1,
        min_symbols: 0,
        symbols: String::new(),
    });
    let default_recipe = self::recipe();
    let password = derive_password(&root_seed(), &default_recipe).expect("default profile still works");
    assert_eq!(password.len(), 24);
    let password = derive_password(&root_seed(), &recipe).expect("no-symbol profile works");
    assert_eq!(password.len(), 16);
    assert!(password.chars().any(|ch| ch.is_ascii_uppercase()));
    assert!(password.chars().any(|ch| ch.is_ascii_lowercase()));
    assert!(password.chars().any(|ch| ch.is_ascii_digit()));
    assert_eq!(password, "ttlfes0k5GSgnXhP");
}

#[test]
fn minimums_equal_length_is_supported() {
    let recipe = with_profile(ProfileSnapshot::Password {
        length: 4,
        min_uppercase: 1,
        min_lowercase: 1,
        min_digits: 1,
        min_symbols: 1,
        symbols: "!".to_owned(),
    });
    assert!(derive_password(&root_seed(), &recipe).is_err());

    let recipe = with_profile(ProfileSnapshot::Password {
        length: 8,
        min_uppercase: 2,
        min_lowercase: 2,
        min_digits: 2,
        min_symbols: 2,
        symbols: "!".to_owned(),
    });
    let password = derive_password(&root_seed(), &recipe).expect("valid exact minimums");
    assert_eq!(password.len(), 8);
    assert_eq!(password, "ou40!YI!");
}

#[test]
fn impossible_profile_is_rejected() {
    let recipe = with_profile(ProfileSnapshot::Password {
        length: 8,
        min_uppercase: 8,
        min_lowercase: 1,
        min_digits: 0,
        min_symbols: 0,
        symbols: String::new(),
    });
    assert!(derive_password(&root_seed(), &recipe).is_err());
}

#[test]
fn duplicate_symbols_are_rejected() {
    let recipe = with_profile(ProfileSnapshot::Password {
        length: 12,
        min_uppercase: 1,
        min_lowercase: 1,
        min_digits: 1,
        min_symbols: 1,
        symbols: "!!".to_owned(),
    });
    assert!(derive_password(&root_seed(), &recipe).is_err());
}

#[test]
fn whitespace_symbols_are_rejected() {
    let recipe = with_profile(ProfileSnapshot::Password {
        length: 12,
        min_uppercase: 1,
        min_lowercase: 1,
        min_digits: 1,
        min_symbols: 1,
        symbols: "! ".to_owned(),
    });
    assert!(derive_password(&root_seed(), &recipe).is_err());
}

#[test]
fn generated_password_has_requested_length() {
    for length in 8_u16..64 {
        let recipe = with_profile(ProfileSnapshot::Password {
            length,
            min_uppercase: 1,
            min_lowercase: 1,
            min_digits: 1,
            min_symbols: 1,
            symbols: "!@#".to_owned(),
        });
        let password = derive_password(&root_seed(), &recipe).expect("valid profile derives");
        assert_eq!(password.len(), usize::from(length));
        assert!(password.chars().any(|ch| ch.is_ascii_uppercase()));
        assert!(password.chars().any(|ch| ch.is_ascii_lowercase()));
        assert!(password.chars().any(|ch| ch.is_ascii_digit()));
        assert!(password.chars().any(|ch| "!@#".contains(ch)));
        assert!(password
            .chars()
            .all(|ch| ch.is_ascii_alphanumeric() || "!@#".contains(ch)));
    }
}

#[test]
fn repeated_runs_are_stable() {
    let first = derive_password(&root_seed(), &recipe()).expect("first");
    let second = derive_password(&root_seed(), &recipe()).expect("second");
    assert_eq!(first, second);
}

#[test]
fn invalid_profile_error_joins_all_findings() {
    let recipe = with_profile(ProfileSnapshot::Password {
        length: 4,
        min_uppercase: 1,
        min_lowercase: 1,
        min_digits: 1,
        min_symbols: 2,
        symbols: "!".to_owned(),
    });
    match derive_password(&root_seed(), &recipe) {
        Err(DeriveError::InvalidProfile(m)) => {
            assert_eq!(
                m,
                "password length must be between 8 and 256, got 4; password profile minimum counts exceed length"
            );
        }
        other => panic!("unexpected: {other:?}"),
    }
}

#[test]
fn non_ascii_recipe_fails_canonicalization() {
    let mut recipe = recipe();
    recipe.public_salt = PublicSalt::new("sälz");
    assert!(matches!(
        derive_password(&root_seed(), &recipe),
        Err(DeriveError::Canonicalization(_))
    ));
    assert!(matches!(recipe_hash(&recipe), Err(DeriveError::Canonicalization(_))));
}

#[test]
fn different_salts_give_different_passwords() {
    let mut other = recipe();
    other.public_salt = PublicSalt::new("ICEiIyQlJicoKSorLC0uLw");
    assert_ne!(
        derive_password(&root_seed(), &recipe()).expect("a"),
        derive_password(&root_seed(), &other).expect("b")
    );
}

#[test]
fn draw_int_rejects_modulo_bias_bytes() {
    let mut stream = ByteStream {
        key: [0_u8; 32],
        block_index: 0,
        block: [0_u8; 32],
        offset: 0,
    };
    stream.block[0] = 255;
    stream.block[1] = 5;
    assert_eq!(stream.draw_int(10).expect("draw"), 5);
}

#[test]
fn draw_int_fails_once_the_last_block_is_used_up() {
    let mut stream = ByteStream {
        key: [0_u8; 32],
        block_index: u64::MAX,
        block: [7_u8; 32],
        offset: 31,
    };
    assert_eq!(stream.draw_int(10).expect("draw"), 7);
    assert!(matches!(stream.draw_int(10), Err(DeriveError::StreamExhausted)));
}
