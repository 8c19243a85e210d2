use seedpass::model::{
    Alias, CredentialRecord, CredentialUid, CredentialVersion, DerivationRecipeV1, DirectoryEntry,
    DirectoryFile, ProfileSnapshot, PublicSalt, Purpose, RecipesFile, Scheme, SeedFingerprint,
    SeedLabel, SeedRecord, Severity, VersionStatus, CoreError, DIRECTORY_FORMAT_V1,
    RECIPES_FORMAT_V1, SCHEME_V1,
};
use seedpass::validate::Validate;

fn profile() -> ProfileSnapshot {
    ProfileSnapshot::Password {
        length: 24,
        min_uppercase: 1,
        min_lowercase: 1,
        min_digits: 1,
        min_symbols: 1,
        symbols: "-_.!@#$%^&*".to_owned(),
    }
}

fn version(number: u32, status: VersionStatus, salt: &str) -> CredentialVersion {
    CredentialVersion {
        number,
        status,
        seed: SeedLabel::new("personal"),
        scheme: Scheme::new(SCHEME_V1),
        public_salt: PublicSalt::new(salt),
        profile_snapshot: profile(),
        created_at: Some("2026-05-10T00:00:00Z".to_owned()),
        confirmed_at: None,
        failed_at: None,
        retired_at: None,
        revoked_at: None,
    }
}

fn valid_recipes() -> RecipesFile {
    RecipesFile {
        format: RECIPES_FORMAT_V1.to_owned(),
        seeds: vec![(
            SeedLabel::new("personal"),
            SeedRecord {
                fingerprint: SeedFingerprint::new("SPSEED-PSXY-OUAH-G6VN-YYDC-Y3JE-L337-5Q"),
                path: "seeds/personal.seed".to_owned(),
            },
        )],
        credentials: vec![CredentialRecord {
            uid: CredentialUid::new("cred_01HX8K8M9G6TD9CZQK7BW6MQD2"),
            alias: Alias::new("github-personal"),
            purpose: Purpose::WebPassword,
            versions: vec![version(1, VersionStatus::Pending, "EBESExQVFhcYGRobHB0eHw")],
        }],
    }
}

fn valid_directory() -> DirectoryFile {
    DirectoryFile {
        format: DIRECTORY_FORMAT_V1.to_owned(),
        entries: vec![(
            CredentialUid::new("cred_01HX8K8M9G6TD9CZQK7BW6MQD2"),
            DirectoryEntry {
                alias: Alias::new("github-personal"),
                service: Some("github.com".to_owned()),
                username: Some("alice@example.com".to_owned()),
                tags: vec!["dev".to_owned(), "critical".to_owned()],
            },
        )],
    }
}

fn messages(d: &[seedpass::model::Diagnostic]) -> Vec<String> {
    d.iter().map(|x| x.message.clone()).collect()
}

#[test]
fn lifecycle_transitions_match_plan() {
    assert!(VersionStatus::Pending.can_transition_to(VersionStatus::Active));
    assert!(VersionStatus::Pending.can_transition_to(VersionStatus::Failed));
    assert!(VersionStatus::Active.can_transition_to(VersionStatus::Retired));
    assert!(VersionStatus::Active.can_transition_to(VersionStatus::Revoked));
    assert!(VersionStatus::Retired.can_transition_to(VersionStatus::Revoked));

    assert!(!VersionStatus::Failed.can_transition_to(VersionStatus::Active));
    assert!(!VersionStatus::Revoked.can_transition_to(VersionStatus::Active));
}

#[test]
fn terminal_statuses_never_transition_to_any_status() {
    let statuses = [
        VersionStatus::Pending,
        VersionStatus::Active,
        VersionStatus::Retired,
        VersionStatus::Failed,
        VersionStatus::Revoked,
    ];
    for next in 0..=u8::MAX {
        let next = statuses[usize::from(next) % statuses.len()];
        assert!(!VersionStatus::Failed.can_transition_to(next));
        assert!(!VersionStatus::Revoked.can_transition_to(next));
    }
}

#[test]
fn valid_pending_only_record_is_workspace_valid() {
    let recipes = valid_recipes();
    let directory = valid_directory();
    assert_eq!(recipes.validate_with_directory(Some(&directory)), Vec::new());
}

#[test]
fn unsafe_seed_paths_are_invalid() {
    let mut recipes = valid_recipes();
    recipes.seeds[0].1.path = "../personal.seed".to_owned();
    assert!(recipes
        .validate()
        .iter()
        .any(|diagnostic| diagnostic.message.contains("unsafe path")));
}

#[test]
fn control_characters_in_aliases_are_invalid() {
    let mut recipes = valid_recipes();
    recipes.credentials[0].alias = Alias::new("bad\nalias");
    assert!(recipes
        .validate()
        .iter()
        .any(|diagnostic| diagnostic.message.contains("control-character")));
}

#[test]
fn directory_entries_must_reference_known_uids() {
    let recipes = valid_recipes();
    let mut directory = valid_directory();
    directory.entries.push((
        CredentialUid::new("cred_01UNKNOWN"),
        DirectoryEntry {
            alias: Alias::new("unknown"),
            service: None,
            username: None,
            tags: Vec::new(),
        },
    ));
    assert!(recipes
        .validate_with_directory(Some(&directory))
        .iter()
        .any(|diagnostic| diagnostic.message.contains("unknown credential UID")));
}

#[test]
fn alias_rename_changes_directory_only() {
    let recipes = valid_recipes();
    let mut directory = valid_directory();
    let before_recipes = recipes.clone();
    directory
        .rename_alias(&Alias::new("github-personal"), Alias::new("github-main"))
        .expect("rename succeeds");
    assert_eq!(recipes, before_recipes);
    let entry = directory
        .entries
        .iter()
        .find(|(uid, _)| uid.as_str() == "cred_01HX8K8M9G6TD9CZQK7BW6MQD2")
        .map(|(_, entry)| entry)
        .expect("entry exists");
    assert_eq!(entry.alias, Alias::new("github-main"));
}

#[test]
fn metadata_edits_do_not_affect_derivation_recipe() {
    let record = valid_recipes().credentials.remove(0);
    let version = record.versions.first().expect("version");
    let before = DerivationRecipeV1::from_record_version(&record, version);

    let mut changed = record.clone();
    changed.alias = Alias::new("renamed");
    let after = DerivationRecipeV1::from_record_version(&changed, version);

    assert_eq!(before, after);
}

#[test]
fn timestamp_edits_do_not_affect_derivation_recipe() {
    let mut record = valid_recipes().credentials.remove(0);
    let before = DerivationRecipeV1::from_record_version(&record, &record.versions[0]);

    record.versions[0].created_at = Some("2030-01-01T00:00:00Z".to_owned());
    record.versions[0].failed_at = Some("2030-01-02T00:00:00Z".to_owned());
    let after = DerivationRecipeV1::from_record_version(&record, &record.versions[0]);

    assert_eq!(before, after);
}

#[test]
fn seed_label_edits_do_not_affect_derivation_recipe() {
    let mut record = valid_recipes().credentials.remove(0);
    let before = DerivationRecipeV1::from_record_version(&record, &record.versions[0]);

    record.versions[0].seed = SeedLabel::new("renamed-personal");
    let after = DerivationRecipeV1::from_record_version(&record, &record.versions[0]);

    assert_eq!(before, after);
}

#[test]
fn duplicate_public_salt_is_invalid() {
    let mut recipes = valid_recipes();
    recipes.credentials[0].versions[0].status = VersionStatus::Active;
    recipes.credentials[0].versions.push(version(2, VersionStatus::Pending, "EBESExQVFhcYGRobHB0eHw"));
    assert!(!recipes.is_valid());
    assert!(messages(&recipes.hard_errors())
        .contains(&"duplicate public salt globally in recipes.yaml: EBESExQVFhcYGRobHB0eHw".to_owned()));
}

#[test]
fn two_active_versions_are_invalid() {
    let mut recipes = valid_recipes();
    recipes.credentials[0].versions[0].status = VersionStatus::Active;
    recipes.credentials[0].versions.push(version(2, VersionStatus::Active, "ICEiIyQlJicoKSorLC0uLw"));
    assert!(!recipes.is_valid());
}

#[test]
fn unknown_scheme_is_invalid() {
    let mut recipes = valid_recipes();
    recipes.credentials[0].versions[0].scheme = Scheme::new("seedpass-v9");
    assert!(!recipes.is_valid());
    assert!(messages(&recipes.validate())
        .iter()
        .any(|m| m.contains("uses unsupported scheme: seedpass-v9")));
}

#[test]
fn bad_formats_and_timestamps_are_reported() {
    let mut recipes = valid_recipes();
    recipes.format = "seedpass-recipes-v0".to_owned();
    recipes.credentials[0].versions[0].created_at = Some("yesterday".to_owned());
    let found = messages(&recipes.validate());
    assert!(found.contains(&"unsupported recipes format: seedpass-recipes-v0".to_owned()));
    assert!(found.iter().any(|m| m.contains("created_at")));
    let mut directory = valid_directory();
    directory.format = "nope".to_owned();
    assert!(!directory.is_valid());
}

#[test]
fn rename_refusals_change_nothing() {
    let mut directory = valid_directory();
    let before = directory.clone();
    assert_eq!(
        directory.rename_alias(&Alias::new("missing"), Alias::new("other")),
        Err(CoreError::AliasNotFound("missing".to_owned()))
    );
    assert_eq!(directory, before);
    assert_eq!(
        directory.rename_alias(&Alias::new("other"), Alias::new("github-personal")),
        Err(CoreError::AliasAlreadyExists("github-personal".to_owned()))
    );
    assert_eq!(directory, before);
    assert_eq!(
        CoreError::AliasNotFound("x".to_owned()).message(),
        "alias not found: x"
    );
}

#[test]
fn diagnostic_constructors_set_severity() {
    let h = seedpass::model::Diagnostic::hard("boom".to_owned());
    let w = seedpass::model::Diagnostic::warning("hmm".to_owned());
    assert_eq!(h.severity, Severity::HardError);
    assert_eq!(w.severity, Severity::Warning);
    assert_eq!(w.message, "hmm");
}

#[test]
fn invalid_profiles_are_reported() {
    let p = ProfileSnapshot::Password {
        length: 4,
        min_uppercase: 2,
        min_lowercase: 2,
        min_digits: 1,
        min_symbols: 1,
        symbols: "!!a ".to_owned(),
    };
    let found = messages(&p.validate_profile());
    assert!(found.len() >= 5, "{found:?}");
    assert!(profile().validate_profile().is_empty());
}

fn entry(alias: &str) -> DirectoryEntry {
    DirectoryEntry {
        alias: Alias::new(alias),
        service: None,
        username: Some("someone".to_owned()),
        tags: Vec::new(),
    }
}

#[test]
fn rename_picks_the_entry_with_the_least_uid() {
    let mut directory = DirectoryFile {
        format: DIRECTORY_FORMAT_V1.to_owned(),
        entries: vec![
            (CredentialUid::new("cred_B"), entry("same")),
            (CredentialUid::new("cred_A"), entry("same")),
        ],
    };
    directory
        .rename_alias(&Alias::new("same"), Alias::new("renamed"))
        .expect("rename succeeds");
    assert_eq!(directory.entries[0].1.alias, Alias::new("same"));
    assert_eq!(directory.entries[1].1.alias, Alias::new("renamed"));
}

#[test]
fn unknown_uid_findings_come_in_uid_order() {
    let recipes = valid_recipes();
    let mut directory = valid_directory();
    directory.entries.push((CredentialUid::new("cred_Z"), entry("zed")));
    directory.entries.push((CredentialUid::new("cred_M"), entry("em")));
    let unknown: Vec<String> = recipes
        .validate_with_directory(Some(&directory))
        .into_iter()
        .map(|diagnostic| diagnostic.message)
        .filter(|message| message.contains("unknown credential UID"))
        .collect();
    assert_eq!(
        unknown,
        vec![
            "directory entry references unknown credential UID: cred_M".to_owned(),
            "directory entry references unknown credential UID: cred_Z".to_owned(),
        ]
    );
}

#[test]
fn duplicate_directory_aliases_are_reported_once() {
    let directory = DirectoryFile {
        format: DIRECTORY_FORMAT_V1.to_owned(),
        entries: vec![
            (CredentialUid::new("cred_B"), entry("same")),
            (CredentialUid::new("cred_A"), entry("same")),
        ],
    };
    let messages: Vec<String> = directory.validate().into_iter().map(|d| d.message).collect();
    assert_eq!(messages, vec!["duplicate directory alias: same".to_owned()]);
}
