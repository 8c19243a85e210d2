use std::path::Path;

use seedpass::model::{
    Alias, CredentialRecord, CredentialUid, CredentialVersion, DirectoryEntry, DirectoryFile,
    ProfileSnapshot, PublicSalt, Purpose, RecipesFile, Scheme, SeedFingerprint, SeedLabel,
    SeedRecord, Severity, VersionStatus, DIRECTORY_FORMAT_V1, RECIPES_FORMAT_V1, SCHEME_V1,
};
use seedpass::storage::{
    seed_path_within,
    preflight_yaml, seed_file_diagnostics, validate_seed_path, SeedFileStatus, StorageError,
    Workspace, WorkspacePaths, DIRECTORY_FILE, EVENT_LOG_FILE, PROFILES_FILE, RECIPES_FILE,
};
use seedpass::codec::CodecError;

fn recipes() -> RecipesFile {
    RecipesFile {
        format: RECIPES_FORMAT_V1.to_owned(),
        seeds: vec![(
            SeedLabel::new("personal"),
            SeedRecord {
                fingerprint: SeedFingerprint::new("SPSEED-PSXY-OUAH-G6VN-YYDC-Y3JE-L337-5Q"),
                path: "seeds/personal.seed".to_owned(),
            },
        )],
        credentials: vec![CredentialRecord {
            uid: CredentialUid::new("cred_01HX8K8M9G6TD9CZQK7BW6MQD2"),
            alias: Alias::new("github-personal"),
            purpose: Purpose::WebPassword,
            versions: vec![CredentialVersion {
                number: 1,
                status: VersionStatus::Pending,
                seed: SeedLabel::new("personal"),
                scheme: Scheme::new(SCHEME_V1),
                public_salt: PublicSalt::new("EBESExQVFhcYGRobHB0eHw"),
                profile_snapshot: ProfileSnapshot::Password {
                    length: 24,
                    min_uppercase: 1,
                    min_lowercase: 1,
                    min_digits: 1,
                    min_symbols: 1,
                    symbols: "-_.!@#$%^&*".to_owned(),
                },
                created_at: Some("2026-05-10T00:00:00Z".to_owned()),
                confirmed_at: None,
                failed_at: None,
                retired_at: None,
                revoked_at: None,
            }],
        }],
    }
}

fn workspace() -> Workspace {
    Workspace {
        recipes: recipes(),
        directory: Some(DirectoryFile {
            format: DIRECTORY_FORMAT_V1.to_owned(),
            entries: vec![(
                CredentialUid::new("cred_01HX8K8M9G6TD9CZQK7BW6MQD2"),
                DirectoryEntry {
                    alias: Alias::new("github-personal"),
                    service: Some("github.com".to_owned()),
                    username: Some("alice@example.com".to_owned()),
                    tags: vec!["dev".to_owned()],
                },
            )],
        }),
        profiles: None,
    }
}

#[test]
fn workspace_paths_resolve_expected_files() {
    let paths = WorkspacePaths::new("/tmp/example-seedpass");
    assert!(Path::new(&paths.recipes_file()).ends_with(RECIPES_FILE));
    assert!(Path::new(&paths.directory_file()).ends_with(DIRECTORY_FILE));
    assert!(Path::new(&paths.profiles_file()).ends_with(PROFILES_FILE));
    assert!(Path::new(&paths.event_log_file()).ends_with(EVENT_LOG_FILE));
}

#[test]
fn paths_join_like_pathbuf() {
    let paths = WorkspacePaths::new("/tmp/example-seedpass");
    assert_eq!(paths.recipes_file(), "/tmp/example-seedpass/recipes.yaml");
    assert_eq!(paths.lock_file(), "/tmp/example-seedpass/.seedpass.lock");
    assert_eq!(paths.seed_file("seeds/personal.seed"), "/tmp/example-seedpass/seeds/personal.seed");
    assert_eq!(paths.seed_file("/etc/passwd"), "/etc/passwd");
    let slash = WorkspacePaths::new("/tmp/ws/");
    assert_eq!(slash.config_file(), "/tmp/ws/seedpass.yaml");
    let empty = WorkspacePaths::new("");
    assert_eq!(empty.seeds_dir(), "seeds");
    assert_eq!(empty.history_dir(), "history");
    for (a, b) in [
        ("/tmp/example-seedpass", "recipes.yaml"),
        ("/tmp/ws/", "x/y"),
        ("rel", "/abs"),
        ("", "z"),
    ] {
        assert_eq!(
            WorkspacePaths::new(a).seed_file(b),
            Path::new(a).join(b).to_str().expect("utf8")
        );
    }
}

#[test]
fn unsafe_seed_paths_are_rejected_before_joining() {
    assert!(matches!(
        validate_seed_path("../outside.seed"),
        Err(StorageError::UnsafeSeedPath(_))
    ));
    assert!(matches!(
        validate_seed_path("/tmp/outside.seed"),
        Err(StorageError::UnsafeSeedPath(_))
    ));
    assert!(validate_seed_path("seeds/personal.seed").is_ok());
    assert!(validate_seed_path("seeds").is_err());
    assert!(validate_seed_path("seeds/./x").is_ok());
    assert!(validate_seed_path("seeds/../x").is_err());
}

#[test]
fn duplicate_yaml_keys_fail_the_strict_preflight() {
    match preflight_yaml("recipes.yaml", "format: a\nformat: b\n") {
        Err(StorageError::Codec { path, source }) => {
            assert_eq!(path, "recipes.yaml");
            assert_eq!(source, CodecError::DuplicateYamlKey { key: "format".to_owned(), line: 2 });
        }
        other => panic!("unexpected {other:?}"),
    }
    assert!(preflight_yaml("recipes.yaml", "format: a\n").is_ok());
}

#[test]
fn valid_workspace_with_private_seed_is_hard_valid() {
    let ws = workspace();
    let statuses = vec![SeedFileStatus::Present {
        path: "/w/seeds/personal.seed".to_owned(),
        mode: Some(0o600),
    }];
    let report = ws.validate(Some(&statuses));
    assert!(report.is_hard_valid());
    assert!(report.diagnostics.is_empty());
    assert!(ws.ensure_derivation_allowed(Some(&statuses)).is_ok());
}

#[test]
fn missing_seed_file_is_a_hard_error() {
    let ws = workspace();
    let statuses = vec![SeedFileStatus::Missing { path: "/w/seeds/personal.seed".to_owned() }];
    let report = ws.validate(Some(&statuses));
    assert!(!report.is_hard_valid());
    assert_eq!(report.hard_errors().len(), 1);
    assert_eq!(report.hard_errors()[0].message, "missing seed file: /w/seeds/personal.seed");
    match ws.ensure_derivation_allowed(Some(&statuses)) {
        Err(errors) => assert_eq!(errors.len(), 1),
        Ok(()) => panic!("derivation must be refused"),
    }
}

#[test]
fn broad_seed_permissions_only_warn() {
    let statuses = vec![
        SeedFileStatus::Present { path: "/a".to_owned(), mode: Some(0o100644) },
        SeedFileStatus::Present { path: "/b".to_owned(), mode: None },
        SeedFileStatus::Uninspectable { path: "/c".to_owned(), message: "denied".to_owned() },
        SeedFileStatus::Unresolved(StorageError::UnsafeSeedPath("../x".to_owned())),
    ];
    let d = seed_file_diagnostics(&statuses);
    assert_eq!(d.len(), 3);
    assert_eq!(d[0].severity, Severity::Warning);
    assert_eq!(d[0].message, "seed file permissions are too broad: /a mode 644");
    assert_eq!(d[1].message, "cannot inspect seed file /c: denied");
    assert_eq!(d[2].message, "unsafe seed path in recipes.yaml: ../x");
    let ws = workspace();
    let report = ws.validate(Some(&statuses));
    assert_eq!(report.warnings().len(), 1);
    assert_eq!(report.hard_errors().len(), 2);
}

#[test]
fn validation_without_disk_checks_only_files() {
    let mut ws = workspace();
    ws.recipes.credentials[0].alias = Alias::new("bad\talias");
    let report = ws.validate(None);
    assert!(!report.is_hard_valid());
}

#[test]
fn storage_errors_have_messages() {
    assert_eq!(
        StorageError::Io { path: "/x".to_owned(), message: "gone".to_owned() }.message(),
        "I/O error at /x: gone"
    );
    assert_eq!(
        StorageError::AlreadyLocked("/l".to_owned()).message(),
        "workspace is already locked: /l"
    );
    assert_eq!(
        StorageError::Codec {
            path: "/r".to_owned(),
            source: CodecError::DuplicateYamlKey { key: "a".to_owned(), line: 2 }
        }
        .message(),
        "strict codec error in /r: duplicate YAML key `a` at line 2"
    );
    assert_eq!(
        StorageError::ConfigDirUnavailable.message(),
        "could not resolve platform config directory"
    );
}

#[test]
fn strict_derivation_refuses_warnings_too() {
    let ws = workspace();
    let statuses = vec![SeedFileStatus::Present {
        path: "/w/seeds/personal.seed".to_owned(),
        mode: Some(0o100644),
    }];
    assert!(ws.ensure_derivation_allowed(Some(&statuses)).is_ok());
    match ws.ensure_strict_derivation_allowed(Some(&statuses)) {
        Err(findings) => {
            assert_eq!(findings.len(), 1);
            assert_eq!(findings[0].message, "seed file permissions are too broad: /w/seeds/personal.seed mode 644");
        }
        Ok(()) => panic!("strict derivation must refuse a warning"),
    }
    let private = vec![SeedFileStatus::Present {
        path: "/w/seeds/personal.seed".to_owned(),
        mode: Some(0o600),
    }];
    assert!(ws.ensure_strict_derivation_allowed(Some(&private)).is_ok());
}

#[test]
fn seed_paths_must_stay_within_the_workspace_part_by_part() {
    assert!(seed_path_within("/w", "/w/seeds/personal.seed"));
    assert!(seed_path_within("/w/", "/w/seeds/personal.seed"));
    assert!(seed_path_within("/w", "/w"));
    assert!(!seed_path_within("/w", "/wx/seeds/personal.seed"));
    assert!(!seed_path_within("/w", "/outside/personal.seed"));
    assert!(!seed_path_within("/w/seeds", "/w"));
    assert!(!seed_path_within("w", "/w/seeds/personal.seed"));
    for (root, path) in [("/w", "/w/seeds/a"), ("/w", "/wx/a"), ("/a/b", "/a")] {
        assert_eq!(seed_path_within(root, path), Path::new(path).starts_with(root));
    }
}
