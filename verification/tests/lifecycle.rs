use base64::engine::general_purpose::URL_SAFE_NO_PAD;
use base64::Engine as _;
use seedpass::accounts::{
    add_credential, add_credential_with, add_profile, default_profile, default_profiles,
    find_profile, find_seed, new_workspace_files, profiles_or_default, rename_account,
};
use seedpass::commands::{backup_test, derive_checked, BackupTestError, PassError};
use seedpass::crypto::{
    encrypt_seed_with_params, CipherParams, KdfParams, RootSeed, SeedEnvelopeV1, ARGON2_VERSION,
};
use seedpass::lifecycle::{
    abort_pending_at, begin_rotation, begin_rotation_with, confirm_pending, confirm_pending_at,
    find_record, select_version, LifecycleError, VersionRequest,
};
use seedpass::maintenance::{backup_relative_path, doctor_warnings_at, hex, restores_secret, BackupPathError};
use seedpass::model::{
    Alias, CoreError, CredentialRecord, CredentialUid, CredentialVersion, DerivationRecipeV1,
    DirectoryEntry, DirectoryFile, ProfileSnapshot, PublicSalt, Purpose, RecipesFile, Scheme,
    SeedFingerprint, SeedLabel, SeedRecord, VersionStatus, DIRECTORY_FORMAT_V1, RECIPES_FORMAT_V1,
    SCHEME_V1,
};
use seedpass::storage::Workspace;
use seedpass::validate::Validate;

fn profile() -> ProfileSnapshot {
    ProfileSnapshot::Password {
        length: 24,
        min_uppercase: 1,
        min_lowercase: 1,
        min_digits: 1,
        min_symbols: 1,
        symbols: "-_.!@#$%^&*".to_owned(),
    }
}

fn version(number: u32, status: VersionStatus, salt: &str) -> CredentialVersion {
    CredentialVersion {
        number,
        status,
        seed: SeedLabel::new("personal"),
        scheme: Scheme::new(SCHEME_V1),
        public_salt: PublicSalt::new(salt),
        profile_snapshot: profile(),
        created_at: Some("2026-05-10T00:00:00Z".to_owned()),
        confirmed_at: None,
        failed_at: None,
        retired_at: None,
        revoked_at: None,
    }
}

fn seeds() -> Vec<(SeedLabel, SeedRecord)> {
    vec![(
        SeedLabel::new("personal"),
        SeedRecord {
            fingerprint: SeedFingerprint::new("SPSEED-PSXY-OUAH-G6VN-YYDC-Y3JE-L337-5Q"),
            path: "seeds/personal.seed".to_owned(),
        },
    )]
}

fn recipes(versions: Vec<CredentialVersion>) -> RecipesFile {
    RecipesFile {
        format: RECIPES_FORMAT_V1.to_owned(),
        seeds: seeds(),
        credentials: vec![CredentialRecord {
            uid: CredentialUid::new("cred_01HX8K8M9G6TD9CZQK7BW6MQD2"),
            alias: Alias::new("github-personal"),
            purpose: Purpose::WebPassword,
            versions,
        }],
    }
}

fn directory() -> DirectoryFile {
    DirectoryFile {
        format: DIRECTORY_FORMAT_V1.to_owned(),
        entries: vec![(
            CredentialUid::new("cred_01HX8K8M9G6TD9CZQK7BW6MQD2"),
            DirectoryEntry {
                alias: Alias::new("github-personal"),
                service: Some("github.com".to_owned()),
                username: Some("alice@example.com".to_owned()),
                tags: Vec::new(),
            },
        )],
    }
}

fn request(alias: &str) -> VersionRequest {
    VersionRequest { alias: alias.to_owned(), pending: false, version: None, allow_retired: false }
}

fn statuses(r: &RecipesFile) -> Vec<VersionStatus> {
    r.credentials[0].versions.iter().map(|v| v.status).collect()
}

#[test]
fn confirm_promotes_the_only_pending_version() {
    let mut r = recipes(vec![version(1, VersionStatus::Pending, "EBESExQVFhcYGRobHB0eHw")]);
    confirm_pending_at(&mut r, "github-personal", &"2026-06-01T00:00:00Z".to_owned()).expect("confirm");
    assert_eq!(statuses(&r), vec![VersionStatus::Active]);
    assert_eq!(r.credentials[0].versions[0].confirmed_at.as_deref(), Some("2026-06-01T00:00:00Z"));
    assert!(r.is_valid());
}

#[test]
fn confirm_retires_the_previous_active_version() {
    let mut r = recipes(vec![
        version(1, VersionStatus::Active, "EBESExQVFhcYGRobHB0eHw"),
        version(2, VersionStatus::Pending, "ICEiIyQlJicoKSorLC0uLw"),
    ]);
    confirm_pending_at(&mut r, "github-personal", &"t".to_owned()).expect("confirm");
    assert_eq!(statuses(&r), vec![VersionStatus::Retired, VersionStatus::Active]);
    assert_eq!(r.credentials[0].versions[0].retired_at.as_deref(), Some("t"));
    confirm_pending(&mut r, "github-personal").expect_err("nothing pending");
}

#[test]
fn confirm_refusals() {
    let mut r = recipes(vec![version(1, VersionStatus::Active, "EBESExQVFhcYGRobHB0eHw")]);
    let before = r.clone();
    assert!(matches!(
        confirm_pending_at(&mut r, "missing", &"t".to_owned()),
        Err(LifecycleError::AccountNotFound(a)) if a == "missing"
    ));
    assert!(matches!(
        confirm_pending_at(&mut r, "github-personal", &"t".to_owned()),
        Err(LifecycleError::NoPendingVersion(a)) if a == "github-personal"
    ));
    assert_eq!(r, before);
}

#[test]
fn abort_keeps_active_and_fails_pending() {
    let mut r = recipes(vec![version(1, VersionStatus::Active, "EBESExQVFhcYGRobHB0eHw")]);
    let n = begin_rotation_with(
        &mut r,
        "github-personal",
        PublicSalt::new("ICEiIyQlJicoKSorLC0uLw"),
        "2026-07-01T00:00:00Z".to_owned(),
    )
    .expect("rotation");
    assert_eq!(n, 2);
    assert_eq!(statuses(&r), vec![VersionStatus::Active, VersionStatus::Pending]);
    let new = &r.credentials[0].versions[1];
    assert_eq!(new.public_salt.as_str(), "ICEiIyQlJicoKSorLC0uLw");
    assert_eq!(new.profile_snapshot, profile());
    assert!(matches!(
        begin_rotation_with(&mut r, "github-personal", PublicSalt::new("x"), "t".to_owned()),
        Err(LifecycleError::PendingAlreadyExists(_))
    ));
    abort_pending_at(&mut r, "github-personal", &"2026-07-02T00:00:00Z".to_owned()).expect("abort");
    assert_eq!(statuses(&r), vec![VersionStatus::Active, VersionStatus::Failed]);
    assert_eq!(r.credentials[0].versions[1].failed_at.as_deref(), Some("2026-07-02T00:00:00Z"));
    assert!(matches!(
        abort_pending_at(&mut r, "github-personal", &"t".to_owned()),
        Err(LifecycleError::NoPendingVersion(_))
    ));
    let n = begin_rotation(&mut r, "github-personal").expect("second rotation");
    assert_eq!(n, 3);
    let salt = URL_SAFE_NO_PAD
        .decode(r.credentials[0].versions[2].public_salt.as_str())
        .expect("salt is base64url");
    assert_eq!(salt.len(), 16);
}

#[test]
fn rotation_needs_an_active_version() {
    let mut r = recipes(vec![version(1, VersionStatus::Failed, "EBESExQVFhcYGRobHB0eHw")]);
    assert!(matches!(
        begin_rotation_with(&mut r, "github-personal", PublicSalt::new("s"), "t".to_owned()),
        Err(LifecycleError::NoActiveVersion(a)) if a == "github-personal"
    ));
    assert!(matches!(
        begin_rotation_with(&mut r, "nobody", PublicSalt::new("s"), "t".to_owned()),
        Err(LifecycleError::AccountNotFound(_))
    ));
}

#[test]
fn select_version_follows_the_request() {
    let r = recipes(vec![
        version(1, VersionStatus::Retired, "EBESExQVFhcYGRobHB0eHw"),
        version(2, VersionStatus::Active, "ICEiIyQlJicoKSorLC0uLw"),
        version(3, VersionStatus::Pending, "MDEyMzQ1Njc4OTo7PD0-Pw"),
    ]);
    let (_, v) = select_version(&r, &request("github-personal")).expect("active");
    assert_eq!(v.number, 2);
    let mut req = request("github-personal");
    req.pending = true;
    assert_eq!(select_version(&r, &req).expect("pending").1.number, 3);
    let mut req = request("github-personal");
    req.version = Some(1);
    assert!(matches!(select_version(&r, &req), Err(LifecycleError::ExplicitVersionRestricted)));
    req.allow_retired = true;
    assert_eq!(select_version(&r, &req).expect("retired").1.number, 1);
    req.version = Some(2);
    assert!(matches!(select_version(&r, &req), Err(LifecycleError::ExplicitVersionRestricted)));
    req.version = Some(9);
    assert!(matches!(select_version(&r, &req), Err(LifecycleError::VersionNotFound(9))));
    assert!(matches!(select_version(&r, &request("x")), Err(LifecycleError::AccountNotFound(_))));
    let only_pending = recipes(vec![version(1, VersionStatus::Pending, "EBESExQVFhcYGRobHB0eHw")]);
    assert!(matches!(
        select_version(&only_pending, &request("github-personal")),
        Err(LifecycleError::NoActiveCredential)
    ));
    let mut req = request("github-personal");
    req.pending = true;
    assert!(matches!(select_version(&r.clone(), &req), Ok(_)));
    assert!(find_record(&r, "github-personal").is_ok());
}

#[test]
fn added_credential_gets_directory_metadata() {
    let mut r = recipes(vec![version(1, VersionStatus::Active, "EBESExQVFhcYGRobHB0eHw")]);
    let mut d = None;
    let profiles = default_profiles();
    add_credential_with(
        &mut r,
        &mut d,
        &profiles,
        "mail",
        Some("mail.example".to_owned()),
        Some("alice".to_owned()),
        "web-default",
        CredentialUid::new("cred_NEW"),
        PublicSalt::new("ICEiIyQlJicoKSorLC0uLw"),
        "2026-05-11T00:00:00Z".to_owned(),
    )
    .expect("add");
    let rec = &r.credentials[1];
    assert_eq!(rec.alias.as_str(), "mail");
    assert_eq!(rec.versions.len(), 1);
    assert_eq!(rec.versions[0].status, VersionStatus::Pending);
    assert_eq!(rec.versions[0].number, 1);
    assert_eq!(rec.versions[0].seed.as_str(), "personal");
    assert_eq!(rec.versions[0].profile_snapshot, default_profile());
    let d = d.expect("directory created");
    assert_eq!(d.format, DIRECTORY_FORMAT_V1);
    assert_eq!(d.entries.len(), 1);
    assert_eq!(d.entries[0].1.service.as_deref(), Some("mail.example"));
    assert_eq!(d.entries[0].1.username.as_deref(), Some("alice"));
    assert!(r.validate_with_directory(Some(&d)).is_empty());
}

#[test]
fn add_refusals_and_seed_choice() {
    let mut r = recipes(vec![version(1, VersionStatus::Active, "EBESExQVFhcYGRobHB0eHw")]);
    r.seeds.insert(
        0,
        (
            SeedLabel::new("work"),
            SeedRecord { fingerprint: SeedFingerprint::new("SPSEED-X"), path: "seeds/work.seed".to_owned() },
        ),
    );
    let mut d = Some(directory());
    let profiles = default_profiles();
    let salt = || PublicSalt::new("ICEiIyQlJicoKSorLC0uLw");
    assert!(matches!(
        add_credential_with(&mut r, &mut d, &profiles, "github-personal", None, None, "web-default", CredentialUid::new("c"), salt(), "t".to_owned()),
        Err(LifecycleError::AliasAlreadyExists(_))
    ));
    assert!(matches!(
        add_credential_with(&mut r, &mut d, &profiles, "new", None, None, "strict", CredentialUid::new("c"), salt(), "t".to_owned()),
        Err(LifecycleError::ProfileNotFound(p)) if p == "strict"
    ));
    add_credential_with(&mut r, &mut d, &profiles, "new", None, None, "web-default", CredentialUid::new("c"), salt(), "t".to_owned())
        .expect("add");
    assert_eq!(r.credentials[1].versions[0].seed.as_str(), "personal");
    let d = d.expect("directory");
    assert_eq!(d.entries.len(), 2);
    assert_eq!(d.entries[1].1.username, None);
    let mut empty = RecipesFile { format: RECIPES_FORMAT_V1.to_owned(), seeds: Vec::new(), credentials: Vec::new() };
    let mut nd = None;
    assert!(matches!(
        add_credential_with(&mut empty, &mut nd, &profiles, "a", None, None, "web-default", CredentialUid::new("c"), salt(), "t".to_owned()),
        Err(LifecycleError::NoSeedConfigured)
    ));
    assert!(nd.is_none());
}

#[test]
fn add_credential_generates_uid_and_salt() {
    let mut r = recipes(Vec::new());
    let mut d = None;
    let uid = add_credential(&mut r, &mut d, &default_profiles(), "site", None, Some("u".to_owned()), "web-default")
        .expect("add");
    assert!(uid.as_str().starts_with("cred_"));
    assert_eq!(uid.as_str().len(), 31);
    assert_eq!(r.credentials[1].uid, uid);
}

#[test]
fn rename_account_moves_alias_in_both_files() {
    let mut r = recipes(vec![version(1, VersionStatus::Active, "EBESExQVFhcYGRobHB0eHw")]);
    let mut d = Some(directory());
    rename_account(&mut r, &mut d, "github-personal", "github-main").expect("rename");
    assert_eq!(r.credentials[0].alias.as_str(), "github-main");
    assert_eq!(d.as_ref().expect("dir").entries[0].1.alias.as_str(), "github-main");
    assert!(matches!(
        rename_account(&mut r, &mut d, "nobody", "x"),
        Err(LifecycleError::AccountNotFound(_))
    ));
    let mut lone = None;
    rename_account(&mut r, &mut lone, "github-main", "gh").expect("rename without directory");
    let mut stale = Some(directory());
    assert!(matches!(
        rename_account(&mut r, &mut stale, "gh", "gh2"),
        Err(LifecycleError::Directory(CoreError::AliasNotFound(_)))
    ));
}

#[test]
fn profiles_are_added_once_and_validated() {
    let mut p = profiles_or_default(None);
    assert_eq!(p.format, "seedpass-profiles-v1");
    assert!(find_profile(&p, "web-default").is_some());
    assert!(matches!(add_profile(&mut p, "web-default", default_profile()), Err(LifecycleError::ProfileAlreadyExists(_))));
    let bad = ProfileSnapshot::Password {
        length: 4,
        min_uppercase: 0,
        min_lowercase: 0,
        min_digits: 0,
        min_symbols: 0,
        symbols: String::new(),
    };
    match add_profile(&mut p, "short", bad) {
        Err(LifecycleError::InvalidProfile(m)) => {
            assert_eq!(m, "password length must be between 8 and 256, got 4")
        }
        other => panic!("unexpected {other:?}"),
    }
    add_profile(&mut p, "pin", ProfileSnapshot::Password {
        length: 8,
        min_uppercase: 0,
        min_lowercase: 0,
        min_digits: 8,
        min_symbols: 0,
        symbols: String::new(),
    })
    .expect("add");
    assert_eq!(p.profiles.len(), 2);
    assert_eq!(profiles_or_default(Some(p.clone())), p);
}

#[test]
fn new_workspace_files_are_valid() {
    let (r, d, p) = new_workspace_files("SPSEED-PSXY-OUAH-G6VN-YYDC-Y3JE-L337-5Q");
    assert!(r.validate_with_directory(Some(&d)).is_empty());
    assert_eq!(r.seeds[0].1.path, "seeds/personal.seed");
    assert_eq!(p.profiles[0].0, "web-default");
}

#[test]
fn doctor_reports_stale_pending_and_directory_gaps() {
    let mut r = recipes(vec![version(1, VersionStatus::Pending, "EBESExQVFhcYGRobHB0eHw")]);
    r.credentials[0].versions[0].created_at = Some("2026-05-10T00:00:00Z".to_owned());
    let mut d = directory();
    d.entries.push((
        CredentialUid::new("cred_B"),
        DirectoryEntry {
            alias: Alias::new("b"),
            service: Some("github.com".to_owned()),
            username: Some("alice@example.com".to_owned()),
            tags: Vec::new(),
        },
    ));
    d.entries.push((
        CredentialUid::new("cred_C"),
        DirectoryEntry { alias: Alias::new("c"), service: Some("x".to_owned()), username: None, tags: Vec::new() },
    ));
    let ws = Workspace { recipes: r, directory: Some(d), profiles: None };
    let weak = KdfParams {
        name: "argon2id".to_owned(),
        version: ARGON2_VERSION,
        memory_kib: 8192,
        iterations: 2,
        parallelism: 1,
        salt: String::new(),
    };
    // 2026-05-25T00:00:01Z, fifteen days and one second later.
    let now: i128 = 1_779_667_201 * 1_000_000_000;
    let w = doctor_warnings_at(&ws, &vec![("seeds/personal.seed".to_owned(), weak)], now);
    assert_eq!(
        w,
        vec![
            "clipboard output is unavailable in this MVP build; --clip will not fall back to stdout".to_owned(),
            "seeds/personal.seed: seed KDF parameters are below current minimums; rewrap recommended".to_owned(),
            "pending rotation older than 14 days: github-personal version 1".to_owned(),
            "duplicate service+username metadata: github.com alice@example.com".to_owned(),
            "directory entry missing username: c".to_owned(),
        ]
    );
    let fresh = doctor_warnings_at(&ws, &Vec::new(), 1_778_371_200 * 1_000_000_000);
    assert_eq!(fresh.len(), 3);
}

#[test]
fn hex_is_lowercase_two_digits_per_byte() {
    assert_eq!(hex(&[0x00, 0x0f, 0xa5, 0xff]), "000fa5ff");
    assert_eq!(hex(&[]), "");
}

#[test]
fn backup_paths_restore_only_workspace_files() {
    assert_eq!(backup_relative_path("seedpass-backup-v1/recipes.yaml"), Ok("recipes.yaml".to_owned()));
    assert_eq!(
        backup_relative_path("seedpass-backup-v1/seeds/personal.seed"),
        Ok("seeds/personal.seed".to_owned())
    );
    assert_eq!(
        backup_relative_path("seedpass-backup-v1//./profiles.yaml/"),
        Ok("profiles.yaml".to_owned())
    );
    assert_eq!(backup_relative_path(""), Err(BackupPathError::Empty));
    assert_eq!(
        backup_relative_path("other/recipes.yaml"),
        Err(BackupPathError::Unexpected("other/recipes.yaml".to_owned()))
    );
    assert_eq!(
        backup_relative_path("/seedpass-backup-v1/recipes.yaml"),
        Err(BackupPathError::Unexpected("/seedpass-backup-v1/recipes.yaml".to_owned()))
    );
    assert_eq!(
        backup_relative_path("seedpass-backup-v1/seeds/../../etc/passwd"),
        Err(BackupPathError::Unsafe("seedpass-backup-v1/seeds/../../etc/passwd".to_owned()))
    );
    assert_eq!(
        backup_relative_path("seedpass-backup-v1/notes.txt"),
        Err(BackupPathError::Unsafe("seedpass-backup-v1/notes.txt".to_owned()))
    );
    assert_eq!(
        backup_relative_path("seedpass-backup-v1"),
        Err(BackupPathError::Unsafe("seedpass-backup-v1".to_owned()))
    );
    assert_eq!(
        BackupPathError::Unsafe("p".to_owned()).message(),
        "unsafe or unsupported backup path: p"
    );
}

fn seed() -> RootSeed {
    let mut bytes = [0_u8; 32];
    for (i, b) in bytes.iter_mut().enumerate() {
        *b = i as u8;
    }
    RootSeed::new(bytes)
}

fn envelope() -> SeedEnvelopeV1 {
    encrypt_seed_with_params(
        &seed(),
        b"pw",
        KdfParams {
            name: "argon2id".to_owned(),
            version: ARGON2_VERSION,
            memory_kib: 64,
            iterations: 1,
            parallelism: 1,
            salt: URL_SAFE_NO_PAD.encode([5_u8; 16]),
        },
        CipherParams { name: "aes-256-gcm".to_owned(), nonce: URL_SAFE_NO_PAD.encode([6_u8; 12]) },
    )
    .expect("encrypt")
}

#[test]
fn derive_checked_verifies_the_seed_first() {
    let r = recipes(vec![version(1, VersionStatus::Active, "EBESExQVFhcYGRobHB0eHw")]);
    let recipe = DerivationRecipeV1::from_record_version(&r.credentials[0], &r.credentials[0].versions[0]);
    let fp = "SPSEED-PSXY-OUAH-G6VN-YYDC-Y3JE-L337-5Q";
    assert_eq!(derive_checked(&envelope(), b"pw", fp, &recipe).expect("derive"), "s#kB-$sXyS7oWlb$I&50#JqC");
    assert!(matches!(derive_checked(&envelope(), b"pw", "SPSEED-NOPE", &recipe), Err(PassError::FingerprintMismatch)));
    assert!(matches!(derive_checked(&envelope(), b"bad", fp, &recipe), Err(PassError::Crypto(_))));
}

#[test]
fn backup_test_checks_every_seed_and_one_derivation() {
    let r = recipes(vec![version(1, VersionStatus::Active, "EBESExQVFhcYGRobHB0eHw")]);
    assert!(backup_test(&r, &vec![envelope()], b"pw").is_ok());
    assert!(matches!(backup_test(&r, &vec![envelope()], b"no"), Err(BackupTestError::Crypto(_))));
    let mut wrong = r.clone();
    wrong.seeds[0].1.fingerprint = SeedFingerprint::new("SPSEED-OTHER");
    assert!(matches!(
        backup_test(&wrong, &vec![envelope()], b"pw"),
        Err(BackupTestError::FingerprintMismatch(p)) if p == "seeds/personal.seed"
    ));
    let mut lost = r.clone();
    lost.credentials[0].versions[0].seed = SeedLabel::new("gone");
    assert!(matches!(backup_test(&lost, &vec![envelope()], b"pw"), Err(BackupTestError::SeedNotFound)));
}

#[test]
fn lifecycle_errors_have_messages() {
    assert_eq!(LifecycleError::AccountNotFound("a".to_owned()).message(), "account not found: a");
    assert_eq!(LifecycleError::VersionNotFound(7).message(), "version not found: 7");
    assert_eq!(
        LifecycleError::NoActiveCredential.message(),
        "no active credential; use --pending or confirm pending version"
    );
    assert_eq!(
        LifecycleError::Directory(CoreError::AliasAlreadyExists("z".to_owned())).message(),
        "alias already exists: z"
    );
}

#[test]
fn rewrapped_seed_derives_the_same_password() {
    let r = recipes(vec![version(1, VersionStatus::Active, "EBESExQVFhcYGRobHB0eHw")]);
    let recipe = DerivationRecipeV1::from_record_version(&r.credentials[0], &r.credentials[0].versions[0]);
    let fp = "SPSEED-PSXY-OUAH-G6VN-YYDC-Y3JE-L337-5Q";
    let rewrapped = seedpass::crypto::rewrap_seed_with_params(
        &envelope(),
        b"pw",
        b"other",
        KdfParams {
            name: "argon2id".to_owned(),
            version: ARGON2_VERSION,
            memory_kib: 128,
            iterations: 1,
            parallelism: 2,
            salt: URL_SAFE_NO_PAD.encode([8_u8; 20]),
        },
        CipherParams { name: "aes-256-gcm".to_owned(), nonce: URL_SAFE_NO_PAD.encode([3_u8; 12]) },
    )
    .expect("rewrap");
    assert_eq!(
        derive_checked(&rewrapped, b"other", fp, &recipe).expect("new"),
        derive_checked(&envelope(), b"pw", fp, &recipe).expect("old")
    );
}

#[test]
fn seeds_are_found_by_label_and_seed_files_are_secret() {
    let r = recipes(Vec::new());
    assert_eq!(find_seed(&r, "personal").expect("seed").path, "seeds/personal.seed");
    assert!(find_seed(&r, "work").is_none());
    assert!(restores_secret("seeds/personal.seed"));
    assert!(!restores_secret("recipes.yaml"));
    assert!(!restores_secret("seeds"));
}
