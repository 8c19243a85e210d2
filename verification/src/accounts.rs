//! Account and profile edits: adding a credential with its directory entry,
//! renaming, profile templates, and the files of a new workspace.
use vstd::prelude::*;
use crate::lifecycle::{find_record_index, first_alias, LifecycleError};
use crate::model::{
    alias_renamed, diags_view, Alias, CredentialRecord, CredentialUid, CredentialVersion,
    DirectoryEntry, DirectoryFile, ProfileSnapshot, ProfileTemplate, ProfilesFile, PublicSalt,
    Purpose, RecipesFile, Scheme, SeedFingerprint, SeedLabel, SeedRecord, VersionStatus,
    DIRECTORY_FORMAT_V1, RECIPES_FORMAT_V1, SCHEME_V1,
};
use crate::text::{lemma_text_lt_total, lemma_text_lt_transitive, same_text, text_less, text_lt};

verus! {

/// The format of `profiles.yaml`.
pub const PROFILES_FORMAT_V1: &'static str = "seedpass-profiles-v1";
/// The name of the profile that new workspaces start with.
pub const DEFAULT_PROFILE_NAME: &'static str = "web-default";
/// The seed label of a new workspace.
pub const DEFAULT_SEED_LABEL: &'static str = "personal";
/// The seed file of a new workspace, relative to the workspace.
pub const DEFAULT_SEED_PATH: &'static str = "seeds/personal.seed";

// ---------------------------------------------------------------------------
// Keys of association lists

/// `k` is the index of the first pair whose key is `key`.
pub open spec fn is_first_key<K: View<V = Seq<char>>, V>(es: Seq<(K, V)>, key: Seq<char>, k: int) -> bool {
    &&& 0 <= k < es.len()
    &&& es[k].0@ == key
    &&& forall|j: int| 0 <= j < k ==> (#[trigger] es[j]).0@ != key
}

/// The index of the first pair whose key is `key`, if any.
pub open spec fn first_key<K: View<V = Seq<char>>, V>(es: Seq<(K, V)>, key: Seq<char>) -> Option<int> {
    if exists|k: int| is_first_key(es, key, k) {
        Some(choose|k: int| is_first_key(es, key, k))
    } else {
        None
    }
}

fn find_profile_index(profiles: &ProfilesFile, name: &str) -> (r: Option<usize>)
    ensures
        match (r, first_key(profiles.profiles@, name@)) {
            (Some(i), Some(k)) => i == k,
            (None, None) => true,
            _ => false,
        },
{
    let ghost es = profiles.profiles@;
    for i in 0..profiles.profiles.len()
        invariant
            es == profiles.profiles@,
            forall|j: int| 0 <= j < i ==> (#[trigger] es[j]).0@ != name@,
    {
        if same_text(profiles.profiles[i].0.as_str(), name) {
            assert(is_first_key(es, name@, i as int));
            let ghost k = choose|k: int| is_first_key(es, name@, k);
            assert(k == i) by {
                if k < i {
                    assert(es[k].0@ != name@);
                } else if k > i {
                    assert(es[i as int].0@ != name@);
                }
            }
            return Some(i);
        }
    }
    None
}

fn find_entry_index(entries: &Vec<(CredentialUid, DirectoryEntry)>, uid: &str) -> (r: Option<usize>)
    ensures
        match (r, first_key(entries@, uid@)) {
            (Some(i), Some(k)) => i == k,
            (None, None) => true,
            _ => false,
        },
{
    let ghost es = entries@;
    for i in 0..entries.len()
        invariant
            es == entries@,
            forall|j: int| 0 <= j < i ==> (#[trigger] es[j]).0@ != uid@,
    {
        if same_text(entries[i].0.as_str(), uid) {
            assert(is_first_key(es, uid@, i as int));
            let ghost k = choose|k: int| is_first_key(es, uid@, k);
            assert(k == i) by {
                if k < i {
                    assert(es[k].0@ != uid@);
                } else if k > i {
                    assert(es[i as int].0@ != uid@);
                }
            }
            return Some(i);
        }
    }
    None
}

pub(crate) fn find_seed_index(seeds: &Vec<(SeedLabel, SeedRecord)>, label: &str) -> (r: Option<usize>)
    ensures
        match (r, first_key(seeds@, label@)) {
            (Some(i), Some(k)) => i == k,
            (None, None) => true,
            _ => false,
        },
{
    let ghost es = seeds@;
    for i in 0..seeds.len()
        invariant
            es == seeds@,
            forall|j: int| 0 <= j < i ==> (#[trigger] es[j]).0@ != label@,
    {
        if same_text(seeds[i].0.as_str(), label) {
            assert(is_first_key(es, label@, i as int));
            let ghost k = choose|k: int| is_first_key(es, label@, k);
            assert(k == i) by {
                if k < i {
                    assert(es[k].0@ != label@);
                } else if k > i {
                    assert(es[i as int].0@ != label@);
                }
            }
            return Some(i);
        }
    }
    None
}

/// The seed record labelled `label`.
pub fn find_seed<'a>(recipes: &'a RecipesFile, label: &str) -> (r: Option<&'a SeedRecord>)
    ensures
        match first_key(recipes.seeds@, label@) {
            Some(k) => r matches Some(s) && *s == recipes.seeds@[k].1,
            None => r is None,
        },
{
    match find_seed_index(&recipes.seeds, label) {
        Some(i) => Some(&recipes.seeds[i].1),
        None => None,
    }
}

/// The profile template named `name`.
pub fn find_profile<'a>(profiles: &'a ProfilesFile, name: &str) -> (r: Option<&'a ProfileTemplate>)
    ensures
        match first_key(profiles.profiles@, name@) {
            Some(k) => r matches Some(t) && *t == profiles.profiles@[k].1,
            None => r is None,
        },
{
    match find_profile_index(profiles, name) {
        Some(i) => Some(&profiles.profiles[i].1),
        None => None,
    }
}

// ---------------------------------------------------------------------------
// The seed of new credentials

/// `k` is the first seed whose label is least in the text order: it is less than
/// every label before it and no label after it is less than it.
pub open spec fn is_first_least_seed(s: Seq<(SeedLabel, SeedRecord)>, k: int) -> bool {
    &&& 0 <= k < s.len()
    &&& forall|j: int| 0 <= j < k ==> text_lt(s[k].0@, (#[trigger] s[j]).0@)
    &&& forall|j: int| k < j < s.len() ==> !text_lt((#[trigger] s[j]).0@, s[k].0@)
}

/// The seed that new credentials use: the one with the least label.
pub open spec fn least_seed(s: Seq<(SeedLabel, SeedRecord)>) -> Option<int> {
    if exists|k: int| is_first_least_seed(s, k) {
        Some(choose|k: int| is_first_least_seed(s, k))
    } else {
        None
    }
}

/// Every non-empty list of seed records has a seed with the least label, so adding
/// a credential never fails for want of a seed once one is configured.
pub proof fn lemma_least_seed_exists(s: Seq<(SeedLabel, SeedRecord)>)
    requires
        s.len() > 0,
    ensures
        least_seed(s) is Some,
    decreases s.len(),
{
    let n = s.len() - 1;
    if n == 0 {
        assert(is_first_least_seed(s, 0));
    } else {
        let p = s.drop_last();
        lemma_least_seed_exists(p);
        let k = choose|k: int| is_first_least_seed(p, k);
        assert(is_first_least_seed(p, k));
        let x = s[n].0@;
        let m = s[k].0@;
        assert(p[k] == s[k]);
        if text_lt(x, m) {
            assert forall|j: int| 0 <= j < n implies text_lt(x, (#[trigger] s[j]).0@) by {
                assert(p[j] == s[j]);
                if j < k {
                    lemma_text_lt_transitive(x, m, s[j].0@);
                } else if j > k {
                    lemma_text_lt_total(s[j].0@, m);
                    if s[j].0@ != m {
                        lemma_text_lt_transitive(x, m, s[j].0@);
                    }
                }
            }
            assert(is_first_least_seed(s, n));
        } else {
            assert forall|j: int| k < j < s.len() implies !text_lt((#[trigger] s[j]).0@, s[k].0@) by {
                if j < n {
                    assert(p[j] == s[j]);
                }
            }
            assert forall|j: int| 0 <= j < k implies text_lt(s[k].0@, (#[trigger] s[j]).0@) by {
                assert(p[j] == s[j]);
            }
            assert(is_first_least_seed(s, k));
        }
    }
}

fn least_seed_index(seeds: &Vec<(SeedLabel, SeedRecord)>) -> (r: Option<usize>)
    ensures
        match (r, least_seed(seeds@)) {
            (Some(i), Some(k)) => i == k,
            (None, None) => true,
            _ => false,
        },
{
    let ghost s = seeds@;
    if seeds.len() == 0 {
        return None;
    }
    let mut best: usize = 0;
    for i in 1..seeds.len()
        invariant
            s == seeds@,
            best < i <= s.len(),
            forall|j: int| 0 <= j < best ==> text_lt(s[best as int].0@, (#[trigger] s[j]).0@),
            forall|j: int| best < j < i ==> !text_lt((#[trigger] s[j]).0@, s[best as int].0@),
    {
        if text_less(seeds[i].0.as_str(), seeds[best].0.as_str()) {
            proof {
                let x = s[i as int].0@;
                let b = s[best as int].0@;
                assert forall|j: int| 0 <= j < i implies text_lt(x, (#[trigger] s[j]).0@) by {
                    if j < best {
                        lemma_text_lt_transitive(x, b, s[j].0@);
                    } else if j > best {
                        lemma_text_lt_total(s[j].0@, b);
                        if s[j].0@ != b {
                            lemma_text_lt_transitive(x, b, s[j].0@);
                        }
                    }
                }
            }
            best = i;
        }
    }
    proof {
        assert(is_first_least_seed(s, best as int));
        let k = choose|k: int| is_first_least_seed(s, k);
        assert(k == best) by {
            if k < best {
                assert(text_lt(s[best as int].0@, s[k].0@));
                assert(!text_lt(s[best as int].0@, s[k].0@));
            } else if k > best {
                assert(text_lt(s[k].0@, s[best as int].0@));
            }
        }
    }
    Some(best)
}

// ---------------------------------------------------------------------------
// Adding a credential

/// The first version of a new credential: pending, with the seed, the current
/// scheme, the public salt, the profile, and the creation time.
pub open spec fn is_first_version(
    v: CredentialVersion,
    seed: SeedLabel,
    salt: PublicSalt,
    profile: ProfileSnapshot,
    now: String,
) -> bool {
    &&& v.number == 1
    &&& v.status == VersionStatus::Pending
    &&& v.seed == seed
    &&& v.scheme@ == SCHEME_V1@
    &&& v.public_salt == salt
    &&& v.profile_snapshot == profile
    &&& v.created_at == Some(now)
    &&& v.confirmed_at is None
    &&& v.failed_at is None
    &&& v.retired_at is None
    &&& v.revoked_at is None
}

/// The directory entry of a new credential.
pub open spec fn is_new_entry(
    e: DirectoryEntry,
    alias: Seq<char>,
    service: Option<String>,
    username: Option<String>,
) -> bool {
    &&& e.alias@ == alias
    &&& e.service == service
    &&& e.username == username
    &&& e.tags@.len() == 0
}

/// `after` is `before` with a new entry for `uid` put in: the entry of an existing
/// key is replaced in place, a new key is added at the end.
pub open spec fn entry_put(
    before: Seq<(CredentialUid, DirectoryEntry)>,
    after: Seq<(CredentialUid, DirectoryEntry)>,
    uid: CredentialUid,
    alias: Seq<char>,
    service: Option<String>,
    username: Option<String>,
) -> bool {
    match first_key(before, uid@) {
        Some(k) => {
            &&& after.len() == before.len()
            &&& forall|j: int| 0 <= j < before.len() && j != k ==> #[trigger] after[j] == before[j]
            &&& after[k].0 == before[k].0
            &&& is_new_entry(after[k].1, alias, service, username)
        },
        None => {
            &&& after.len() == before.len() + 1
            &&& after.drop_last() == before
            &&& after.last().0 == uid
            &&& is_new_entry(after.last().1, alias, service, username)
        },
    }
}

/// What adding the credential `alias` does: refused when the alias is taken, the
/// profile is unknown, or no seed is configured; otherwise a record with one
/// pending version is appended (on the seed with the least label), and the
/// directory (created when absent) gets the credential's entry.
pub open spec fn add_effect(
    before: RecipesFile,
    after: RecipesFile,
    dir_before: Option<DirectoryFile>,
    dir_after: Option<DirectoryFile>,
    profiles: ProfilesFile,
    alias: Seq<char>,
    service: Option<String>,
    username: Option<String>,
    profile_name: Seq<char>,
    uid: CredentialUid,
    salt: PublicSalt,
    now: String,
    r: Result<(), LifecycleError>,
) -> bool {
    let unchanged = after == before && dir_after == dir_before;
    if first_alias(before.credentials@, alias) is Some {
        unchanged && (r matches Err(LifecycleError::AliasAlreadyExists(a)) && a@ == alias)
    } else if first_key(profiles.profiles@, profile_name) is None {
        unchanged && (r matches Err(LifecycleError::ProfileNotFound(n)) && n@ == profile_name)
    } else if least_seed(before.seeds@) is None {
        unchanged && (r matches Err(LifecycleError::NoSeedConfigured))
    } else {
        let profile = profiles.profiles@[first_key(profiles.profiles@, profile_name)->0].1.profile;
        let seed = before.seeds@[least_seed(before.seeds@)->0].0;
        let rec = after.credentials@.last();
        &&& r is Ok
        &&& after.format == before.format
        &&& after.seeds == before.seeds
        &&& after.credentials@.len() == before.credentials@.len() + 1
        &&& after.credentials@.drop_last() == before.credentials@
        &&& rec.uid == uid
        &&& rec.alias@ == alias
        &&& rec.purpose == Purpose::WebPassword
        &&& rec.versions@.len() == 1
        &&& is_first_version(rec.versions@[0], seed, salt, profile, now)
        &&& dir_after matches Some(d) && match dir_before {
            Some(d0) => d.format == d0.format && entry_put(
                d0.entries@,
                d.entries@,
                uid,
                alias,
                service,
                username,
            ),
            None => d.format@ == DIRECTORY_FORMAT_V1@ && entry_put(
                Seq::empty(),
                d.entries@,
                uid,
                alias,
                service,
                username,
            ),
        }
    }
}

/// Adds a credential with the given UID, public salt and creation time.
pub fn add_credential_with(
    recipes: &mut RecipesFile,
    directory: &mut Option<DirectoryFile>,
    profiles: &ProfilesFile,
    alias: &str,
    service: Option<String>,
    username: Option<String>,
    profile_name: &str,
    uid: CredentialUid,
    salt: PublicSalt,
    now: String,
) -> (r: Result<(), LifecycleError>)
    ensures
        add_effect(
            *old(recipes),
            *final(recipes),
            *old(directory),
            *final(directory),
            *profiles,
            alias@,
            service,
            username,
            profile_name@,
            uid,
            salt,
            now,
            r,
        ),
{
    if find_record_index(recipes, alias).is_some() {
        return Err(LifecycleError::AliasAlreadyExists(alias.to_owned()));
    }
    let p = match find_profile_index(profiles, profile_name) {
        Some(p) => p,
        None => return Err(LifecycleError::ProfileNotFound(profile_name.to_owned())),
    };
    let profile = profiles.profiles[p].1.profile.clone();
    let k = match least_seed_index(&recipes.seeds) {
        Some(k) => k,
        None => return Err(LifecycleError::NoSeedConfigured),
    };
    let seed = recipes.seeds[k].0.clone();
    let version = CredentialVersion {
        number: 1,
        status: VersionStatus::Pending,
        seed,
        scheme: Scheme(SCHEME_V1.to_owned()),
        public_salt: salt,
        profile_snapshot: profile,
        created_at: Some(now),
        confirmed_at: None,
        failed_at: None,
        retired_at: None,
        revoked_at: None,
    };
    let mut versions: Vec<CredentialVersion> = Vec::new();
    versions.push(version);
    let record = CredentialRecord {
        uid: uid.clone(),
        alias: Alias(alias.to_owned()),
        purpose: Purpose::WebPassword,
        versions,
    };
    let ghost before = recipes.credentials@;
    recipes.credentials.push(record);
    assert(recipes.credentials@.drop_last() =~= before);
    let mut dir = match directory.take() {
        Some(d) => d,
        None => DirectoryFile { format: DIRECTORY_FORMAT_V1.to_owned(), entries: Vec::new() },
    };
    let entry = DirectoryEntry {
        alias: Alias(alias.to_owned()),
        service,
        username,
        tags: Vec::new(),
    };
    let ghost es = dir.entries@;
    match find_entry_index(&dir.entries, uid.as_str()) {
        Some(e) => {
            let (key, _) = dir.entries.remove(e);
            dir.entries.insert(e, (key, entry));
            assert forall|j: int| 0 <= j < es.len() && j != e implies #[trigger] dir.entries@[j]
                == es[j] by {
                if j < e {
                    assert(dir.entries@[j] == es[j]);
                } else {
                    assert(dir.entries@[j] == es[j]);
                }
            }
        },
        None => {
            dir.entries.push((uid, entry));
            assert(dir.entries@.drop_last() =~= es);
        },
    }
    *directory = Some(dir);
    Ok(())
}

/// A result with the UID left out.
pub open spec fn without_uid(r: Result<CredentialUid, LifecycleError>) -> Result<(), LifecycleError> {
    match r {
        Ok(_) => Ok(()),
        Err(e) => Err(e),
    }
}

/// A credential UID as new credentials get it: `cred_` and a ULID of 26 Crockford
/// base32 symbols.
pub open spec fn ulid_uid(uid: CredentialUid) -> bool {
    &&& uid@.len() == 31
    &&& uid@.take(5) == "cred_"@
    &&& forall|i: int| 5 <= i < 31 ==> crate::primitives::is_crockford_symbol(#[trigger] uid@[i])
}

/// Adds a credential now, with a fresh `cred_` ULID and a fresh random 16-byte
/// public salt, and returns its UID.
pub fn add_credential(
    recipes: &mut RecipesFile,
    directory: &mut Option<DirectoryFile>,
    profiles: &ProfilesFile,
    alias: &str,
    service: Option<String>,
    username: Option<String>,
    profile_name: &str,
) -> (r: Result<CredentialUid, LifecycleError>)
    ensures
        exists|uid: CredentialUid, salt: PublicSalt, now: String|
            {
                &&& #[trigger] add_effect(
                    *old(recipes),
                    *final(recipes),
                    *old(directory),
                    *final(directory),
                    *profiles,
                    alias@,
                    service,
                    username,
                    profile_name@,
                    uid,
                    salt,
                    now,
                    without_uid(r),
                )
                &&& ulid_uid(uid)
                &&& crate::lifecycle::fresh_salt(salt)
                &&& crate::lifecycle::clock_timestamp(now)
                &&& r matches Ok(u) ==> u == uid
            },
{
    let ulid = crate::primitives::new_ulid_text();
    let uid = CredentialUid(crate::text::concat2("cred_", ulid.as_str()));
    proof {
        reveal_strlit("cred_");
        assert(uid@.take(5) =~= "cred_"@);
        assert forall|i: int| 5 <= i < 31 implies crate::primitives::is_crockford_symbol(#[trigger] uid@[i]) by {
            assert(uid@[i] == ulid@[i - 5]);
        }
    }
    let salt = crate::lifecycle::salt_from_bytes(crate::primitives::random_16());
    let now = crate::primitives::now_rfc3339();
    let ghost g_uid = uid;
    let ghost g_salt = salt;
    let ghost g_now = now;
    let ghost g_service = service;
    let ghost g_username = username;
    let res = add_credential_with(
        recipes,
        directory,
        profiles,
        alias,
        service,
        username,
        profile_name,
        uid.clone(),
        salt,
        now,
    );
    let r: Result<CredentialUid, LifecycleError> = match res {
        Ok(()) => Ok(uid),
        Err(e) => Err(e),
    };
    assert(add_effect(
        *old(recipes),
        *recipes,
        *old(directory),
        *directory,
        *profiles,
        alias@,
        g_service,
        g_username,
        profile_name@,
        g_uid,
        g_salt,
        g_now,
        without_uid(r),
    ));
    r
}

// ---------------------------------------------------------------------------
// Renaming

/// `after` is `before` with the alias of record `i` set to `alias`, all else kept.
pub open spec fn record_alias_set(
    before: Seq<CredentialRecord>,
    after: Seq<CredentialRecord>,
    i: int,
    alias: Seq<char>,
) -> bool {
    &&& after.len() == before.len()
    &&& 0 <= i < before.len()
    &&& forall|k: int| 0 <= k < before.len() && k != i ==> #[trigger] after[k] == before[k]
    &&& after[i].uid == before[i].uid
    &&& after[i].alias@ == alias
    &&& after[i].purpose == before[i].purpose
    &&& after[i].versions@ == before[i].versions@
}

/// What renaming the account `old_alias` to `new_alias` does: the first record
/// with the old alias takes the new one, then the directory (when there is one)
/// renames its entry, and its refusal is the result.
pub open spec fn rename_effect(
    before: RecipesFile,
    after: RecipesFile,
    dir_before: Option<DirectoryFile>,
    dir_after: Option<DirectoryFile>,
    old_alias: Seq<char>,
    new_alias: Seq<char>,
    r: Result<(), LifecycleError>,
) -> bool {
    match first_alias(before.credentials@, old_alias) {
        None => {
            &&& r matches Err(LifecycleError::AccountNotFound(a)) && a@ == old_alias
            &&& after == before
            &&& dir_after == dir_before
        },
        Some(i) => {
            &&& after.format == before.format
            &&& after.seeds == before.seeds
            &&& record_alias_set(before.credentials@, after.credentials@, i, new_alias)
            &&& match dir_before {
                None => dir_after is None && r is Ok,
                Some(d0) => dir_after matches Some(d) && d.format == d0.format && exists|
                    c: Result<(), crate::model::CoreError>,
                |
                    #[trigger] alias_renamed(d0.entries@, d.entries@, old_alias, new_alias, c)
                        && match c {
                        Ok(()) => r is Ok,
                        Err(e) => r == Err::<(), LifecycleError>(LifecycleError::Directory(e)),
                    },
            }
        },
    }
}

/// Renames an account in the recipes and in the directory.
pub fn rename_account(
    recipes: &mut RecipesFile,
    directory: &mut Option<DirectoryFile>,
    old_alias: &str,
    new_alias: &str,
) -> (r: Result<(), LifecycleError>)
    ensures
        rename_effect(
            *old(recipes),
            *final(recipes),
            *old(directory),
            *final(directory),
            old_alias@,
            new_alias@,
            r,
        ),
{
    let i = match find_record_index(recipes, old_alias) {
        Some(i) => i,
        None => return Err(LifecycleError::AccountNotFound(old_alias.to_owned())),
    };
    let ghost before = recipes.credentials@;
    let mut rec = recipes.credentials.remove(i);
    rec.alias = Alias(new_alias.to_owned());
    recipes.credentials.insert(i, rec);
    assert forall|k: int| 0 <= k < before.len() && k != i implies #[trigger] recipes.credentials@[k]
        == before[k] by {
        if k < i {
            assert(recipes.credentials@[k] == before[k]);
        } else {
            assert(recipes.credentials@[k] == before[k]);
        }
    }
    match directory.take() {
        None => Ok(()),
        Some(mut d) => {
            let ghost es = d.entries@;
            let c = d.rename_alias(&Alias(old_alias.to_owned()), Alias(new_alias.to_owned()));
            let ghost gc = c;
            *directory = Some(d);
            assert(alias_renamed(es, directory->0.entries@, old_alias@, new_alias@, gc));
            match c {
                Ok(()) => Ok(()),
                Err(e) => Err(LifecycleError::Directory(e)),
            }
        },
    }
}

// ---------------------------------------------------------------------------
// Profiles

/// The password profile of new workspaces: 24 characters with at least one of
/// each class and the symbols `-_.!@#$%^&*`.
pub open spec fn is_default_profile(p: ProfileSnapshot) -> bool {
    match p {
        ProfileSnapshot::Password {
            length,
            min_uppercase,
            min_lowercase,
            min_digits,
            min_symbols,
            symbols,
        } => length == 24 && min_uppercase == 1 && min_lowercase == 1 && min_digits == 1
            && min_symbols == 1 && symbols@ == "-_.!@#$%^&*"@,
    }
}

/// The default password profile.
pub fn default_profile() -> (r: ProfileSnapshot)
    ensures
        is_default_profile(r),
{
    ProfileSnapshot::Password {
        length: 24,
        min_uppercase: 1,
        min_lowercase: 1,
        min_digits: 1,
        min_symbols: 1,
        symbols: "-_.!@#$%^&*".to_owned(),
    }
}

/// The profiles of a new workspace: the default profile named `web-default`.
pub open spec fn is_default_profiles(f: ProfilesFile) -> bool {
    &&& f.format@ == PROFILES_FORMAT_V1@
    &&& f.profiles@.len() == 1
    &&& f.profiles@[0].0@ == DEFAULT_PROFILE_NAME@
    &&& is_default_profile(f.profiles@[0].1.profile)
}

/// The profiles file of a new workspace.
pub fn default_profiles() -> (r: ProfilesFile)
    ensures
        is_default_profiles(r),
{
    let mut profiles: Vec<(String, ProfileTemplate)> = Vec::new();
    profiles.push((DEFAULT_PROFILE_NAME.to_owned(), ProfileTemplate { profile: default_profile() }));
    ProfilesFile { format: PROFILES_FORMAT_V1.to_owned(), profiles }
}

/// The workspace's profiles, or the default ones when it has none.
pub fn profiles_or_default(profiles: Option<ProfilesFile>) -> (r: ProfilesFile)
    ensures
        match profiles {
            Some(p) => r == p,
            None => is_default_profiles(r),
        },
{
    match profiles {
        Some(p) => p,
        None => default_profiles(),
    }
}

/// What adding the profile `name` does: refused when the name is taken or the
/// profile is invalid (naming its first finding); otherwise the template is added.
pub open spec fn add_profile_effect(
    before: ProfilesFile,
    after: ProfilesFile,
    name: Seq<char>,
    profile: ProfileSnapshot,
    r: Result<(), LifecycleError>,
) -> bool {
    if first_key(before.profiles@, name) is Some {
        &&& r matches Err(LifecycleError::ProfileAlreadyExists(n)) && n@ == name
        &&& after == before
    } else if profile.profile_diags().len() > 0 {
        &&& r matches Err(LifecycleError::InvalidProfile(m)) && m@ == profile.profile_diags()[0].1
        &&& after == before
    } else {
        &&& r is Ok
        &&& after.format == before.format
        &&& after.profiles@.len() == before.profiles@.len() + 1
        &&& after.profiles@.drop_last() == before.profiles@
        &&& after.profiles@.last().0@ == name
        &&& after.profiles@.last().1.profile == profile
    }
}

/// Adds a named password profile template.
pub fn add_profile(profiles: &mut ProfilesFile, name: &str, profile: ProfileSnapshot) -> (r: Result<(), LifecycleError>)
    ensures
        add_profile_effect(*old(profiles), *final(profiles), name@, profile, r),
{
    if find_profile_index(profiles, name).is_some() {
        return Err(LifecycleError::ProfileAlreadyExists(name.to_owned()));
    }
    let errors = profile.validate_profile();
    if errors.len() > 0 {
        assert(diags_view(errors@)[0] == errors@[0]@);
        return Err(LifecycleError::InvalidProfile(errors[0].message.clone()));
    }
    let ghost before = profiles.profiles@;
    profiles.profiles.push((name.to_owned(), ProfileTemplate { profile }));
    assert(profiles.profiles@.drop_last() =~= before);
    Ok(())
}

// ---------------------------------------------------------------------------
// A new workspace

/// The recipes of a new workspace: one seed `personal` at `seeds/personal.seed`
/// with the given fingerprint, and no credentials.
pub open spec fn is_new_recipes(f: RecipesFile, fingerprint: Seq<char>) -> bool {
    &&& f.format@ == RECIPES_FORMAT_V1@
    &&& f.seeds@.len() == 1
    &&& f.seeds@[0].0@ == DEFAULT_SEED_LABEL@
    &&& f.seeds@[0].1.fingerprint@ == fingerprint
    &&& f.seeds@[0].1.path@ == DEFAULT_SEED_PATH@
    &&& f.credentials@.len() == 0
}

/// The files of a new workspace whose seed has the given display fingerprint:
/// its recipes, an empty directory, and the default profiles.
pub fn new_workspace_files(fingerprint: &str) -> (r: (RecipesFile, DirectoryFile, ProfilesFile))
    ensures
        is_new_recipes(r.0, fingerprint@),
        r.1.format@ == DIRECTORY_FORMAT_V1@,
        r.1.entries@.len() == 0,
        is_default_profiles(r.2),
{
    let mut seeds: Vec<(SeedLabel, SeedRecord)> = Vec::new();
    seeds.push(
        (
            SeedLabel(DEFAULT_SEED_LABEL.to_owned()),
            SeedRecord {
                fingerprint: SeedFingerprint(fingerprint.to_owned()),
                path: DEFAULT_SEED_PATH.to_owned(),
            },
        ),
    );
    let recipes = RecipesFile {
        format: RECIPES_FORMAT_V1.to_owned(),
        seeds,
        credentials: Vec::new(),
    };
    let directory = DirectoryFile { format: DIRECTORY_FORMAT_V1.to_owned(), entries: Vec::new() };
    (recipes, directory, default_profiles())
}

} // verus!
