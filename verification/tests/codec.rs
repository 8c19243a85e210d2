use seedpass::codec::{canonical_recipe_v1, push_json_string, CodecError};
use seedpass::model::{
    Alias, CredentialRecord, CredentialUid, CredentialVersion, DerivationRecipeV1, ProfileSnapshot,
    PublicSalt, Purpose, Scheme, SeedLabel, VersionStatus, RECIPE_FORMAT_V1, SCHEME_V1,
};
use seedpass::yaml::reject_duplicate_yaml_keys;

fn recipe() -> DerivationRecipeV1 {
    DerivationRecipeV1 {
        format: RECIPE_FORMAT_V1.to_owned(),
        scheme: Scheme::new(SCHEME_V1),
        credential_uid: CredentialUid::new("cred_01HX8K8M9G6TD9CZQK7BW6MQD2"),
        purpose: Purpose::WebPassword,
        version: 1,
        public_salt: PublicSalt::new("EBESExQVFhcYGRobHB0eHw"),
        profile_snapshot: ProfileSnapshot::Password {
            length: 24,
            min_uppercase: 1,
            min_lowercase: 1,
            min_digits: 1,
            min_symbols: 1,
            symbols: "-_.!@#$%^&*".to_owned(),
        },
    }
}

#[test]
fn json_string_escaping_is_minimal_and_valid() {
    let mut out = String::new();
    push_json_string(&mut out, "quote:\" slash:\\ newline:\n");
    assert_eq!(out, "\"quote:\\\" slash:\\\\ newline:\\n\"");
}

#[test]
fn duplicate_yaml_keys_are_rejected_by_preflight() {
    let yaml = "format: seedpass-recipes-v1\nformat: seedpass-recipes-v1\n";
    assert_eq!(
        reject_duplicate_yaml_keys(yaml),
        Err(CodecError::DuplicateYamlKey {
            key: "format".to_owned(),
            line: 2
        })
    );
}

#[test]
fn repeated_yaml_keys_in_different_list_items_are_allowed() {
    let yaml = "credentials:\n  - uid: cred_a\n    alias: a\n  - uid: cred_b\n    alias: b\n";
    assert_eq!(reject_duplicate_yaml_keys(yaml), Ok(()));
}

#[test]
fn flow_mapping_yaml_is_rejected() {
    assert!(matches!(
        reject_duplicate_yaml_keys("format: {a: 1, a: 2}\n"),
        Err(CodecError::UnsupportedYamlSyntax { .. })
    ));
}

#[test]
fn non_ascii_derivation_string_is_rejected() {
    let mut recipe = recipe();
    recipe.credential_uid = CredentialUid::new("cred_é");
    assert_eq!(
        canonical_recipe_v1(&recipe),
        Err(CodecError::NonAscii {
            field: "credential_uid"
        })
    );
}

#[test]
fn mutable_metadata_is_not_in_canonical_recipe() {
    let record = CredentialRecord {
        uid: CredentialUid::new("cred_01HX8K8M9G6TD9CZQK7BW6MQD2"),
        alias: Alias::new("github-personal"),
        purpose: Purpose::WebPassword,
        versions: vec![CredentialVersion {
            number: 1,
            status: VersionStatus::Pending,
            seed: SeedLabel::new("personal"),
            scheme: Scheme::new(SCHEME_V1),
            public_salt: PublicSalt::new("EBESExQVFhcYGRobHB0eHw"),
            profile_snapshot: ProfileSnapshot::Password {
                length: 24,
                min_uppercase: 1,
                min_lowercase: 1,
                min_digits: 1,
                min_symbols: 1,
                symbols: "-_.!@#$%^&*".to_owned(),
            },
            created_at: Some("2026-05-10T00:00:00Z".to_owned()),
            confirmed_at: None,
            failed_at: None,
            retired_at: None,
            revoked_at: None,
        }],
    };
    let canonical = String::from_utf8(
        canonical_recipe_v1(&DerivationRecipeV1::from_record_version(
            &record,
            &record.versions[0],
        ))
        .expect("canonicalizes"),
    )
    .expect("utf8");

    for excluded in [
        "github-personal",
        "personal",
        "2026-05-10T00:00:00Z",
        "service",
        "username",
        "tags",
        "seed_fingerprint",
        "seed path",
    ] {
        assert!(!canonical.contains(excluded), "found excluded: {excluded}");
    }
}

#[test]
fn canonical_recipe_is_byte_exact() {
    let actual = canonical_recipe_v1(&recipe()).expect("canonicalizes");
    let expected = "{\"credential_uid\":\"cred_01HX8K8M9G6TD9CZQK7BW6MQD2\",\"format\":\"seedpass-recipe-v1\",\"profile_snapshot\":{\"kind\":\"password\",\"length\":24,\"min_digits\":1,\"min_lowercase\":1,\"min_symbols\":1,\"min_uppercase\":1,\"symbols\":\"-_.!@#$%^&*\"},\"public_salt\":\"EBESExQVFhcYGRobHB0eHw\",\"purpose\":\"web-password\",\"scheme\":\"seedpass-v1\",\"version\":1}";
    assert_eq!(actual, expected.as_bytes());
}

#[test]
fn every_non_ascii_field_is_named() {
    let mut r = recipe();
    r.format = "fórmat".to_owned();
    assert_eq!(canonical_recipe_v1(&r), Err(CodecError::NonAscii { field: "format" }));
    let mut r = recipe();
    r.scheme = Scheme::new("schémé");
    assert_eq!(canonical_recipe_v1(&r), Err(CodecError::NonAscii { field: "scheme" }));
    let mut r = recipe();
    r.public_salt = PublicSalt::new("sält");
    assert_eq!(canonical_recipe_v1(&r), Err(CodecError::NonAscii { field: "public_salt" }));
    let mut r = recipe();
    r.profile_snapshot = ProfileSnapshot::Password {
        length: 24,
        min_uppercase: 1,
        min_lowercase: 1,
        min_digits: 1,
        min_symbols: 1,
        symbols: "€".to_owned(),
    };
    assert_eq!(
        canonical_recipe_v1(&r),
        Err(CodecError::NonAscii { field: "profile_snapshot.symbols" })
    );
}

#[test]
fn json_control_characters_use_unicode_escapes() {
    let mut out = String::from("x");
    push_json_string(&mut out, "\u{1}\t\u{8}\u{c}\r/é");
    assert_eq!(out, "x\"\\u0001\\t\\b\\f\\r/é\"");
}

#[test]
fn yaml_tabs_anchors_and_merge_keys_are_rejected() {
    assert_eq!(
        reject_duplicate_yaml_keys("a: 1\n\tb: 2\n"),
        Err(CodecError::UnsupportedYamlSyntax {
            line: 2,
            reason: "tabs are not allowed in Seedpass YAML"
        })
    );
    assert_eq!(
        reject_duplicate_yaml_keys("base: &x 1\n*x: 2\n"),
        Err(CodecError::UnsupportedYamlSyntax {
            line: 2,
            reason: "anchors, aliases, and merge keys are not allowed in Seedpass YAML"
        })
    );
    assert_eq!(
        reject_duplicate_yaml_keys("a:\n  <<: 1\n"),
        Err(CodecError::UnsupportedYamlSyntax {
            line: 2,
            reason: "anchors, aliases, and merge keys are not allowed in Seedpass YAML"
        })
    );
    assert_eq!(
        reject_duplicate_yaml_keys("a: 1\nb: [x]\n"),
        Ok(())
    );
}

#[test]
fn yaml_nested_mappings_keep_separate_key_sets() {
    let yaml = "seeds:\n  personal:\n    path: a\n  work:\n    path: b\nformat: x\n";
    assert_eq!(reject_duplicate_yaml_keys(yaml), Ok(()));
    let dup = "seeds:\n  personal:\n    path: a\n    path: b\n";
    assert_eq!(
        reject_duplicate_yaml_keys(dup),
        Err(CodecError::DuplicateYamlKey { key: "path".to_owned(), line: 4 })
    );
    let quoted = "\"a\": 1\n'a': 2 # comment\n";
    assert_eq!(
        reject_duplicate_yaml_keys(quoted),
        Err(CodecError::DuplicateYamlKey { key: "a".to_owned(), line: 2 })
    );
}

#[test]
fn codec_errors_have_messages() {
    assert_eq!(
        CodecError::DuplicateYamlKey { key: "k".to_owned(), line: 12 }.message(),
        "duplicate YAML key `k` at line 12"
    );
    assert_eq!(
        CodecError::NonAscii { field: "scheme" }.message(),
        "derivation-critical string contains non-ASCII data: scheme"
    );
    assert_eq!(
        CodecError::UnsupportedYamlSyntax { line: 3, reason: "r" }.message(),
        "unsupported YAML syntax at line 3: r"
    );
    assert_eq!(
        CodecError::UnsupportedPurpose.message(),
        "unsupported derivation recipe purpose"
    );
}
